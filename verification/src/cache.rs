//! How long a response may be cached: the policy, how it follows from the
//! expiry of the data, and how it is written as a `Cache-Control` header.

use vstd::prelude::*;
use crate::text::{decimal, push_decimal};

verus! {

/// The longest time, in seconds, that any response may be cached: one year.
pub const MAX_AGE_LIMIT: u32 = 31_536_000;

/// The time, in seconds, for which records may be cached when none of them
/// says when it expires, or all of them have.
pub const UNKNOWN_EXPIRY_MAX_AGE: u32 = MAX_AGE_LIMIT;

/// The time, in seconds, for which a reverse-DNS answer may be cached.
pub const REVERSE_MAX_AGE: u32 = 30;

/// A point in time: `secs` seconds and `nanos` nanoseconds after the Unix
/// epoch, before it where `secs` is negative.
#[derive(Clone, Copy, Debug, PartialEq, Eq)]
pub struct Timestamp {
    pub secs: i64,
    pub nanos: u32,
}

impl Timestamp {
    /// The point in time as nanoseconds after the epoch.
    pub open spec fn as_nanos(&self) -> int {
        self.secs * 1_000_000_000 + self.nanos
    }
}

/// The whole seconds that are left at `now` until `expires`; meaningful
/// where `expires` lies in the future.
pub open spec fn seconds_left(expires: Timestamp, now: Timestamp) -> int {
    (expires.as_nanos() - now.as_nanos()) / 1_000_000_000
}

/// A record that expires strictly after `now` is still fresh.
pub open spec fn is_fresh(expires: Timestamp, now: Timestamp) -> bool {
    expires.as_nanos() > now.as_nanos()
}

/// The seconds for which a set of records may be cached at `now`: the
/// least time left among the fresh ones, at most the limit. Records that
/// have expired do not count, and where no record counts the answer is
/// `UNKNOWN_EXPIRY_MAX_AGE`.
pub open spec fn max_age(expiries: Seq<Timestamp>, now: Timestamp) -> int
    decreases expiries.len(),
{
    if expiries.len() == 0 {
        UNKNOWN_EXPIRY_MAX_AGE as int
    } else {
        let rest = max_age(expiries.drop_last(), now);
        let last = expiries.last();
        if is_fresh(last, now) && seconds_left(last, now) < rest {
            seconds_left(last, now)
        } else {
            rest
        }
    }
}

/// The computed max-age never leaves `0..=MAX_AGE_LIMIT`.
pub proof fn lemma_max_age_bounds(expiries: Seq<Timestamp>, now: Timestamp)
    ensures
        0 <= max_age(expiries, now) <= MAX_AGE_LIMIT,
    decreases expiries.len(),
{
    if expiries.len() > 0 {
        lemma_max_age_bounds(expiries.drop_last(), now);
    }
}

/// A set of records of which none is fresh, the empty set among them, may
/// be cached for `UNKNOWN_EXPIRY_MAX_AGE`: the one-year limit, not zero.
pub proof fn lemma_max_age_without_fresh_records(expiries: Seq<Timestamp>, now: Timestamp)
    requires
        forall|i: int| 0 <= i < expiries.len() ==> !is_fresh(#[trigger] expiries[i], now),
    ensures
        max_age(expiries, now) == UNKNOWN_EXPIRY_MAX_AGE,
        max_age(expiries, now) == 31_536_000,
    decreases expiries.len(),
{
    if expiries.len() > 0 {
        let init = expiries.drop_last();
        assert forall|i: int| 0 <= i < init.len() implies !is_fresh(#[trigger] init[i], now) by {
            assert(init[i] == expiries[i]);
        }
        lemma_max_age_without_fresh_records(init, now);
        assert(!is_fresh(expiries[expiries.len() - 1], now));
    }
}

/// The computed max-age is the least of the limit and the seconds left of
/// every fresh record: it exceeds none of them, and it is one of them.
pub proof fn lemma_max_age_is_least(expiries: Seq<Timestamp>, now: Timestamp)
    ensures
        forall|i: int|
            0 <= i < expiries.len() && is_fresh(#[trigger] expiries[i], now) ==> max_age(
                expiries,
                now,
            ) <= seconds_left(expiries[i], now),
        max_age(expiries, now) == UNKNOWN_EXPIRY_MAX_AGE || exists|i: int|
            0 <= i < expiries.len() && is_fresh(#[trigger] expiries[i], now) && max_age(
                expiries,
                now,
            ) == seconds_left(expiries[i], now),
    decreases expiries.len(),
{
    if expiries.len() > 0 {
        let init = expiries.drop_last();
        let last = expiries.last();
        lemma_max_age_is_least(init, now);
        assert forall|i: int|
            0 <= i < expiries.len() && is_fresh(#[trigger] expiries[i], now) implies max_age(
            expiries,
            now,
        ) <= seconds_left(expiries[i], now) by {
            if i < init.len() {
                assert(init[i] == expiries[i]);
            }
        }
        if is_fresh(last, now) && seconds_left(last, now) < max_age(init, now) {
            assert(expiries[expiries.len() - 1] == last);
        } else if max_age(init, now) != UNKNOWN_EXPIRY_MAX_AGE {
            let i = choose|i: int|
                0 <= i < init.len() && is_fresh(#[trigger] init[i], now) && max_age(init, now)
                    == seconds_left(init[i], now);
            assert(expiries[i] == init[i]);
        }
    }
}

/// Computes the max-age of a set of records from their expiries.
pub fn max_age_seconds(expiries: &[Timestamp], now: Timestamp) -> (r: u32)
    ensures
        r as int == max_age(expiries@, now),
        r <= MAX_AGE_LIMIT,
{
    let n: usize = expiries.len();
    let mut best: u32 = UNKNOWN_EXPIRY_MAX_AGE;
    let now_nanos: i128 = now.secs as i128 * 1_000_000_000 + now.nanos as i128;
    let mut i: usize = 0;
    assert(expiries@.take(0) =~= Seq::empty());
    while i < n
        invariant
            i <= n == expiries@.len(),
            now_nanos as int == now.as_nanos(),
            best as int == max_age(expiries@.take(i as int), now),
            best <= MAX_AGE_LIMIT,
        decreases n - i,
    {
        let expires = expiries[i];
        let expires_nanos: i128 = expires.secs as i128 * 1_000_000_000 + expires.nanos as i128;
        proof {
            let next = expiries@.take(i + 1);
            assert(next.drop_last() =~= expiries@.take(i as int));
            assert(next.last() == expires);
        }
        if expires_nanos > now_nanos {
            let left: i128 = (expires_nanos - now_nanos) / 1_000_000_000;
            if left < best as i128 {
                best = left as u32;
            }
        }
        i += 1;
    }
    assert(expiries@.take(n as int) =~= expiries@);
    best
}

/// One directive of a `Cache-Control` header.
#[derive(Clone, Copy, Debug, PartialEq, Eq)]
pub enum CacheDirective {
    MaxAge(u32),
    Public,
    NoCache,
    NoStore,
    MustRevalidate,
}

/// What a response tells caches.
#[derive(Clone, Copy, Debug, PartialEq, Eq)]
pub enum CachePolicy {
    /// Any cache may keep the response for so many seconds; more than
    /// `MAX_AGE_LIMIT` counts as the limit.
    Public(u32),
    /// No cache may keep the response.
    NoStore,
}

/// `seconds`, but at most the limit.
pub open spec fn clipped(seconds: int) -> int {
    if seconds > MAX_AGE_LIMIT {
        MAX_AGE_LIMIT as int
    } else {
        seconds
    }
}

/// The directives that state a policy.
pub open spec fn policy_directives(policy: CachePolicy) -> Seq<CacheDirective> {
    match policy {
        CachePolicy::Public(seconds) => seq![
            CacheDirective::MaxAge(clipped(seconds as int) as u32),
            CacheDirective::Public,
        ],
        CachePolicy::NoStore => seq![
            CacheDirective::NoCache,
            CacheDirective::NoStore,
            CacheDirective::MustRevalidate,
        ],
    }
}

/// A directive as it stands in the header.
pub open spec fn directive_text(directive: CacheDirective) -> Seq<char> {
    match directive {
        CacheDirective::MaxAge(seconds) => "max-age="@ + decimal(seconds as nat),
        CacheDirective::Public => "public"@,
        CacheDirective::NoCache => "no-cache"@,
        CacheDirective::NoStore => "no-store"@,
        CacheDirective::MustRevalidate => "must-revalidate"@,
    }
}

/// Directives as the value of a header: joined by a comma and a space.
pub open spec fn directives_text(directives: Seq<CacheDirective>) -> Seq<char>
    decreases directives.len(),
{
    if directives.len() == 0 {
        Seq::empty()
    } else if directives.len() == 1 {
        directive_text(directives[0])
    } else {
        directives_text(directives.drop_last()) + ", "@ + directive_text(directives.last())
    }
}

impl CacheDirective {
    /// Appends the directive to `out`.
    pub fn push_to(&self, out: &mut String)
        ensures
            final(out)@ == old(out)@ + directive_text(*self),
    {
        match self {
            CacheDirective::MaxAge(seconds) => {
                out.append("max-age=");
                push_decimal(out, *seconds);
                assert(final(out)@ =~= old(out)@ + directive_text(*self));
            },
            CacheDirective::Public => out.append("public"),
            CacheDirective::NoCache => out.append("no-cache"),
            CacheDirective::NoStore => out.append("no-store"),
            CacheDirective::MustRevalidate => out.append("must-revalidate"),
        }
    }
}

impl CachePolicy {
    /// The policy for records with the given expiries, looked at at `now`.
    pub fn for_expiries(expiries: &[Timestamp], now: Timestamp) -> (r: CachePolicy)
        ensures
            r == CachePolicy::Public(max_age(expiries@, now) as u32),
            0 <= max_age(expiries@, now) <= MAX_AGE_LIMIT,
    {
        CachePolicy::Public(max_age_seconds(expiries, now))
    }

    /// The directives that state the policy.
    pub fn directives(&self) -> (r: Vec<CacheDirective>)
        ensures
            r@ == policy_directives(*self),
    {
        let mut r: Vec<CacheDirective> = Vec::new();
        match self {
            CachePolicy::Public(seconds) => {
                let seconds: u32 = if *seconds > MAX_AGE_LIMIT {
                    MAX_AGE_LIMIT
                } else {
                    *seconds
                };
                r.push(CacheDirective::MaxAge(seconds));
                r.push(CacheDirective::Public);
            },
            CachePolicy::NoStore => {
                r.push(CacheDirective::NoCache);
                r.push(CacheDirective::NoStore);
                r.push(CacheDirective::MustRevalidate);
            },
        }
        assert(r@ =~= policy_directives(*self));
        r
    }

    /// The value of the `Cache-Control` header that states the policy.
    pub fn header_value(&self) -> (r: String)
        ensures
            r@ == directives_text(policy_directives(*self)),
    {
        let directives = self.directives();
        let n: usize = directives.len();
        let mut out = String::new();
        let mut i: usize = 0;
        assert(out@ =~= directives_text(directives@.take(0)));
        while i < n
            invariant
                i <= n == directives@.len(),
                out@ == directives_text(directives@.take(i as int)),
            decreases n - i,
        {
            if i > 0 {
                out.append(", ");
            }
            directives[i].push_to(&mut out);
            proof {
                let next = directives@.take(i + 1);
                assert(next.drop_last() =~= directives@.take(i as int));
                assert(next.last() == directives@[i as int]);
                assert(out@ =~= directives_text(next));
            }
            i += 1;
        }
        assert(directives@.take(n as int) =~= directives@);
        out
    }
}

} // verus!
