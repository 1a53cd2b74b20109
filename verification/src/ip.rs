//! IP addresses in their textual form: which strings write an address,
//! which address they write, and how an address is written back.

use vstd::prelude::*;
use vstd::slice::slice_subrange;
use crate::roundtrip::lemma_canonical_text_reads_back;
use crate::text::{
    all_digits, chars_of, decimal, digit_of, digit_value, hexadecimal, lemma_split_pieces,
    number_value, push_decimal, push_hex, split, split_on,
};

verus! {

/// An IP address, version 4 or 6.
#[derive(Clone, Copy, Debug, PartialEq, Eq, Hash)]
pub enum IpAddress {
    /// Four octets, first octet first.
    V4([u8; 4]),
    /// Eight 16-bit groups, first group first.
    V6([u16; 8]),
}

/// The mathematical value of an address.
pub enum IpValue {
    V4(Seq<u8>),
    V6(Seq<u16>),
}

impl View for IpAddress {
    type V = IpValue;

    open spec fn view(&self) -> IpValue {
        match *self {
            IpAddress::V4(octets) => IpValue::V4(octets@),
            IpAddress::V6(groups) => IpValue::V6(groups@),
        }
    }
}

/// `s` writes one octet of a dotted quad: one to three decimal digits, no
/// leading zero before another digit, at most 255.
pub open spec fn octet_text(s: Seq<char>) -> bool {
    &&& 1 <= s.len() <= 3
    &&& all_digits(s, 10)
    &&& (s.len() > 1 ==> s[0] != '0')
    &&& number_value(s, 10) <= 255
}

/// The four octets that `s` writes as a dotted quad, if it is one.
pub open spec fn ipv4_octets(s: Seq<char>) -> Option<Seq<u8>> {
    let parts = split(s, '.');
    if parts.len() == 4 && (forall|i: int| 0 <= i < 4 ==> octet_text(#[trigger] parts[i])) {
        Some(Seq::new(4, |i: int| number_value(parts[i], 10) as u8))
    } else {
        None
    }
}

/// Reads one octet of a dotted quad.
pub fn parse_octet(s: &[char]) -> (r: Option<u8>)
    ensures
        r is Some <==> octet_text(s@),
        r is Some ==> r->0 as int == number_value(s@, 10),
{
    let n: usize = s.len();
    if n == 0 || n > 3 {
        return None;
    }
    let mut v: u32 = 0;
    let mut i: usize = 0;
    while i < n
        invariant
            i <= n <= 3,
            n == s@.len(),
            all_digits(s@.take(i as int), 10),
            v as int == number_value(s@.take(i as int), 10),
            i == 0 ==> v == 0,
            i == 1 ==> v < 10,
            i == 2 ==> v < 100,
            i == 3 ==> v < 1000,
        decreases n - i,
    {
        let d: u8 = match digit_of(s[i]) {
            Some(d) => d,
            None => 16,
        };
        if d >= 10 {
            assert(!(0 <= digit_value(s@[i as int]) < 10));
            return None;
        }
        proof {
            let next = s@.take(i + 1);
            assert(next.drop_last() =~= s@.take(i as int));
            assert(next.last() == s@[i as int]);
            assert forall|j: int| 0 <= j < next.len() implies 0 <= #[trigger] digit_value(next[j]) < 10 by {
                if j < i {
                    assert(next[j] == s@.take(i as int)[j]);
                }
            }
        }
        v = v * 10 + d as u32;
        i += 1;
    }
    assert(s@.take(n as int) =~= s@);
    if n > 1 && s[0] == '0' {
        return None;
    }
    if v > 255 {
        return None;
    }
    Some(v as u8)
}

/// Reads a dotted quad.
pub fn parse_ipv4(s: &[char]) -> (r: Option<[u8; 4]>)
    ensures
        match ipv4_octets(s@) {
            Some(octets) => r is Some && r->0@ == octets,
            None => r is None,
        },
{
    let parts = split_on(s, '.');
    if parts.len() != 4 {
        return None;
    }
    let a = parse_octet(parts[0]);
    let b = parse_octet(parts[1]);
    let c = parse_octet(parts[2]);
    let d = parse_octet(parts[3]);
    match (a, b, c, d) {
        (Some(a), Some(b), Some(c), Some(d)) => {
            let octets: [u8; 4] = [a, b, c, d];
            assert(octets@ =~= ipv4_octets(s@)->0);
            Some(octets)
        },
        _ => None,
    }
}

/// `s` writes one group of an IPv6 address: one to four hexadecimal digits.
pub open spec fn group_text(s: Seq<char>) -> bool {
    &&& 1 <= s.len() <= 4
    &&& all_digits(s, 16)
}

/// Reads one group of an IPv6 address.
pub fn parse_group(s: &[char]) -> (r: Option<u16>)
    ensures
        r is Some <==> group_text(s@),
        r is Some ==> r->0 as int == number_value(s@, 16),
{
    let n: usize = s.len();
    if n == 0 || n > 4 {
        return None;
    }
    let mut v: u32 = 0;
    let mut i: usize = 0;
    while i < n
        invariant
            i <= n <= 4,
            n == s@.len(),
            all_digits(s@.take(i as int), 16),
            v as int == number_value(s@.take(i as int), 16),
            i == 0 ==> v == 0,
            i == 1 ==> v < 0x10,
            i == 2 ==> v < 0x100,
            i == 3 ==> v < 0x1000,
            i == 4 ==> v < 0x10000,
        decreases n - i,
    {
        let d: u8 = match digit_of(s[i]) {
            Some(d) => d,
            None => 16,
        };
        if d >= 16 {
            assert(!(0 <= digit_value(s@[i as int]) < 16));
            return None;
        }
        proof {
            let next = s@.take(i + 1);
            assert(next.drop_last() =~= s@.take(i as int));
            assert(next.last() == s@[i as int]);
            assert forall|j: int| 0 <= j < next.len() implies 0 <= #[trigger] digit_value(next[j])
                < 16 by {
                if j < i {
                    assert(next[j] == s@.take(i as int)[j]);
                }
            }
        }
        v = v * 16 + d as u32;
        i += 1;
    }
    assert(s@.take(n as int) =~= s@);
    Some(v as u16)
}

/// The groups that the pieces write, if each piece is a group.
pub open spec fn hex_groups(pieces: Seq<Seq<char>>) -> Option<Seq<u16>> {
    if forall|i: int| 0 <= i < pieces.len() ==> group_text(#[trigger] pieces[i]) {
        Some(Seq::new(pieces.len(), |i: int| number_value(pieces[i], 16) as u16))
    } else {
        None
    }
}

/// The two groups that hold the four octets of a dotted quad.
pub open spec fn quad_groups(octets: Seq<u8>) -> Seq<u16> {
    seq![(octets[0] * 256 + octets[1]) as u16, (octets[2] * 256 + octets[3]) as u16]
}

/// The groups that a colon-separated list writes. Every item is a group of
/// hexadecimal digits; where `quad_allowed`, the last item may instead be a
/// dotted quad, which then stands for two groups. The empty string is the
/// empty list.
pub open spec fn group_list(s: Seq<char>, quad_allowed: bool) -> Option<Seq<u16>> {
    let pieces = split(s, ':');
    if s.len() == 0 {
        Some(Seq::empty())
    } else if hex_groups(pieces) is Some {
        hex_groups(pieces)
    } else if quad_allowed && hex_groups(pieces.drop_last()) is Some && ipv4_octets(pieces.last())
        is Some {
        Some(hex_groups(pieces.drop_last())->0 + quad_groups(ipv4_octets(pieces.last())->0))
    } else {
        None
    }
}

/// Reads a colon-separated list of groups.
pub fn parse_group_list(s: &[char], quad_allowed: bool) -> (r: Option<Vec<u16>>)
    ensures
        match group_list(s@, quad_allowed) {
            Some(groups) => r is Some && r->0@ == groups,
            None => r is None,
        },
{
    let mut groups: Vec<u16> = Vec::new();
    if s.len() == 0 {
        return Some(groups);
    }
    let pieces = split_on(s, ':');
    proof {
        lemma_split_pieces(s@, ':');
    }
    let ghost texts = split(s@, ':');
    let n: usize = pieces.len();
    let mut i: usize = 0;
    while i + 1 < n
        invariant
            1 <= n == pieces@.len(),
            i + 1 <= n,
            s@.len() > 0,
            texts == split(s@, ':'),
            texts.len() == n,
            forall|k: int| 0 <= k < n ==> (#[trigger] pieces@[k])@ == texts[k],
            groups@.len() == i,
            forall|k: int| 0 <= k < i ==> group_text(#[trigger] texts[k]),
            forall|k: int| 0 <= k < i ==> #[trigger] groups@[k] as int == number_value(texts[k], 16),
        decreases n - i,
    {
        match parse_group(pieces[i]) {
            Some(g) => {
                groups.push(g);
            },
            None => {
                assert(!group_text(texts[i as int]));
                assert(!group_text(texts.drop_last()[i as int]));
                return None;
            },
        }
        i += 1;
    }
    let last = pieces[n - 1];
    assert(last@ == texts.last());
    proof {
        let init = texts.drop_last();
        assert forall|k: int| 0 <= k < init.len() implies group_text(#[trigger] init[k]) by {
            assert(init[k] == texts[k]);
        }
        assert(groups@ =~= hex_groups(init)->0) by {
            assert forall|k: int| 0 <= k < init.len() implies groups@[k] == hex_groups(init)->0[k] by {
                assert(init[k] == texts[k]);
            }
        }
    }
    match parse_group(last) {
        Some(g) => {
            groups.push(g);
            proof {
                assert forall|k: int| 0 <= k < texts.len() implies group_text(
                    #[trigger] texts[k],
                ) by {
                    if k == n - 1 {
                        assert(texts[k] == texts.last());
                    }
                }
                assert(groups@ =~= hex_groups(texts)->0);
            }
            Some(groups)
        },
        None => {
            assert(!group_text(texts[n - 1]));
            if !quad_allowed {
                return None;
            }
            match parse_ipv4(last) {
                Some(octets) => {
                    let high: u16 = octets[0] as u16 * 256 + octets[1] as u16;
                    let low: u16 = octets[2] as u16 * 256 + octets[3] as u16;
                    groups.push(high);
                    groups.push(low);
                    proof {
                        let quad = ipv4_octets(texts.last())->0;
                        assert(octets@ == quad);
                        assert(groups@ =~= hex_groups(texts.drop_last())->0 + quad_groups(quad));
                    }
                    Some(groups)
                },
                None => None,
            }
        },
    }
}

/// Where `s` first holds two colons in a row; the length of `s` if nowhere.
pub open spec fn gap_index(s: Seq<char>) -> int
    decreases s.len(),
{
    if s.len() < 2 {
        s.len() as int
    } else if s[0] == ':' && s[1] == ':' {
        0
    } else {
        1 + gap_index(s.drop_first())
    }
}

/// The first pair of colons stands at `k` if none begins before `k` and
/// one begins at `k`, or `k` is the length of `s`.
pub proof fn lemma_gap_index(s: Seq<char>, k: int)
    requires
        0 <= k <= s.len(),
        forall|i: int| 0 <= i < k && i + 1 < s.len() ==> !(#[trigger] s[i] == ':' && s[i + 1] == ':'),
        k < s.len() ==> k + 1 < s.len() && s[k] == ':' && s[k + 1] == ':',
    ensures
        gap_index(s) == k,
    decreases k,
{
    if k > 0 && s.len() >= 2 {
        let t = s.drop_first();
        assert forall|i: int| 0 <= i < k - 1 && i + 1 < t.len() implies !(#[trigger] t[i] == ':'
            && t[i + 1] == ':') by {
            assert(t[i] == s[i + 1]);
            assert(t[i + 1] == s[i + 2]);
            assert(!(s[i + 1] == ':' && s[i + 2] == ':'));
        }
        assert(!(s[0int] == ':' && s[0int + 1] == ':'));
        lemma_gap_index(t, k - 1);
    }
}

/// Finds the first pair of colons.
pub fn find_gap(s: &[char]) -> (r: usize)
    ensures
        r as int == gap_index(s@),
        r <= s@.len(),
        r < s@.len() ==> r + 2 <= s@.len(),
{
    let n: usize = s.len();
    let mut i: usize = 0;
    while i < n
        invariant
            i <= n == s@.len(),
            forall|j: int| 0 <= j < i && j + 1 < n ==> !(#[trigger] s@[j] == ':' && s@[j + 1] == ':'),
        decreases n - i,
    {
        if i + 1 < n && s[i] == ':' && s[i + 1] == ':' {
            proof {
                lemma_gap_index(s@, i as int);
            }
            return i;
        }
        i += 1;
    }
    proof {
        lemma_gap_index(s@, n as int);
    }
    n
}

/// The eight groups that `s` writes as an IPv6 address, if it is one.
///
/// Without a pair of colons, `s` is a list of groups that make eight, the
/// last two possibly as a dotted quad. With one, a list of groups stands on
/// each side of the first pair, the one before it without a dotted quad,
/// and the pair stands for the zero groups, at least one, that fill the
/// address up to eight.
pub open spec fn ipv6_groups(s: Seq<char>) -> Option<Seq<u16>> {
    let gap = gap_index(s);
    if gap >= s.len() {
        match group_list(s, true) {
            Some(groups) => if groups.len() == 8 {
                Some(groups)
            } else {
                None
            },
            None => None,
        }
    } else {
        match (group_list(s.take(gap), false), group_list(s.skip(gap + 2), true)) {
            (Some(head), Some(tail)) => if head.len() + tail.len() <= 7 {
                Some(head + Seq::new((8 - head.len() - tail.len()) as nat, |i: int| 0u16) + tail)
            } else {
                None
            },
            _ => None,
        }
    }
}

/// Reads an IPv6 address.
pub fn parse_ipv6(s: &[char]) -> (r: Option<[u16; 8]>)
    ensures
        match ipv6_groups(s@) {
            Some(groups) => r is Some && r->0@ == groups,
            None => r is None,
        },
{
    let n: usize = s.len();
    let gap = find_gap(s);
    if gap >= n {
        match parse_group_list(s, true) {
            Some(g) => {
                if g.len() == 8 {
                    let groups: [u16; 8] = [g[0], g[1], g[2], g[3], g[4], g[5], g[6], g[7]];
                    assert(groups@ =~= g@);
                    Some(groups)
                } else {
                    None
                }
            },
            None => None,
        }
    } else {
        let head_text = slice_subrange(s, 0, gap);
        let tail_text = slice_subrange(s, gap + 2, n);
        assert(head_text@ =~= s@.take(gap as int));
        assert(tail_text@ =~= s@.skip(gap + 2));
        let head = match parse_group_list(head_text, false) {
            Some(head) => head,
            None => { return None; },
        };
        let tail = match parse_group_list(tail_text, true) {
            Some(tail) => tail,
            None => { return None; },
        };
        if head.len() > 7 || tail.len() > 7 - head.len() {
            return None;
        }
        let mut groups: [u16; 8] = [0, 0, 0, 0, 0, 0, 0, 0];
        let h: usize = head.len();
        let t: usize = tail.len();
        let ghost want = head@ + Seq::new((8 - h - t) as nat, |i: int| 0u16) + tail@;
        let mut i: usize = 0;
        while i < h
            invariant
                i <= h == head@.len(),
                t == tail@.len(),
                h + t <= 7,
                want == head@ + Seq::new((8 - h - t) as nat, |i: int| 0u16) + tail@,
                forall|k: int| 0 <= k < i ==> groups@[k] == want[k],
                forall|k: int| i <= k < 8 ==> groups@[k] == 0,
            decreases h - i,
        {
            groups[i] = head[i];
            i += 1;
        }
        let mut j: usize = 0;
        while j < t
            invariant
                j <= t == tail@.len(),
                h == head@.len(),
                h + t <= 7,
                want == head@ + Seq::new((8 - h - t) as nat, |i: int| 0u16) + tail@,
                forall|k: int| 0 <= k < 8 - t + j ==> groups@[k] == want[k],
            decreases t - j,
        {
            groups[8 - t + j] = tail[j];
            j += 1;
        }
        assert(groups@ =~= want);
        Some(groups)
    }
}

/// The address that `s` writes: a dotted quad, or else an IPv6 address.
pub open spec fn ip_literal(s: Seq<char>) -> Option<IpValue> {
    match ipv4_octets(s) {
        Some(octets) => Some(IpValue::V4(octets)),
        None => match ipv6_groups(s) {
            Some(groups) => Some(IpValue::V6(groups)),
            None => None,
        },
    }
}

/// What is said of a string that writes no address.
pub open spec fn parse_error_text() -> Seq<char> {
    "invalid IP address syntax"@
}

/// The error of a string that writes no IP address.
#[derive(Clone, Copy, Debug, PartialEq, Eq)]
pub struct AddrParseError;

impl AddrParseError {
    /// The error in words.
    pub fn message(&self) -> (r: String)
        ensures
            r@ == parse_error_text(),
    {
        String::from_str("invalid IP address syntax")
    }
}

/// A dotted quad: four decimal numbers with dots between them.
pub open spec fn ipv4_text(octets: Seq<u8>) -> Seq<char> {
    decimal(octets[0] as nat) + seq!['.'] + decimal(octets[1] as nat) + seq!['.'] + decimal(
        octets[2] as nat,
    ) + seq!['.'] + decimal(octets[3] as nat)
}

/// Groups in hexadecimal with colons between them.
pub open spec fn joined_groups(groups: Seq<u16>) -> Seq<char>
    decreases groups.len(),
{
    if groups.len() == 0 {
        Seq::empty()
    } else if groups.len() == 1 {
        hexadecimal(groups[0] as nat)
    } else {
        joined_groups(groups.drop_last()) + seq![':'] + hexadecimal(groups.last() as nat)
    }
}

/// How many zero groups stand in a row from index `i` on.
pub open spec fn zero_run(groups: Seq<u16>, i: int) -> int
    decreases groups.len() - i,
{
    if 0 <= i < groups.len() && groups[i] == 0 {
        1 + zero_run(groups, i + 1)
    } else {
        0
    }
}

/// Start and length of the longest run of zero groups that starts at or
/// after `from`, the first of them where several are as long; `(0, 0)` if
/// no group there is zero.
pub open spec fn longest_zero_run(groups: Seq<u16>, from: int) -> (int, int)
    decreases groups.len() - from,
{
    if from < 0 || from >= groups.len() {
        (0, 0)
    } else {
        let later = longest_zero_run(groups, from + 1);
        if zero_run(groups, from) > 0 && zero_run(groups, from) >= later.1 {
            (from, zero_run(groups, from))
        } else {
            later
        }
    }
}

/// The address holds an IPv4 address after five zero groups and `ffff`.
pub open spec fn is_ipv4_mapped(groups: Seq<u16>) -> bool {
    &&& groups.len() == 8
    &&& groups[0] == 0
    &&& groups[1] == 0
    &&& groups[2] == 0
    &&& groups[3] == 0
    &&& groups[4] == 0
    &&& groups[5] == 0xffff
}

/// The canonical text of an IPv6 address. An IPv4-mapped address is
/// `::ffff:` and a dotted quad. Otherwise the groups stand in lower-case
/// hexadecimal without leading zeros, and the first longest run of two or
/// more zero groups is written as a pair of colons.
pub open spec fn ipv6_text(groups: Seq<u16>) -> Seq<char> {
    if is_ipv4_mapped(groups) {
        "::ffff:"@ + ipv4_text(
            seq![
                (groups[6] / 256) as u8,
                (groups[6] % 256) as u8,
                (groups[7] / 256) as u8,
                (groups[7] % 256) as u8,
            ],
        )
    } else {
        let (start, len) = longest_zero_run(groups, 0);
        if len > 1 {
            joined_groups(groups.take(start)) + "::"@ + joined_groups(groups.skip(start + len))
        } else {
            joined_groups(groups)
        }
    }
}

/// The canonical text of an address.
pub open spec fn ip_text(ip: IpValue) -> Seq<char> {
    match ip {
        IpValue::V4(octets) => ipv4_text(octets),
        IpValue::V6(groups) => ipv6_text(groups),
    }
}

/// Appends the dotted quad of `octets` to `out`.
pub fn push_ipv4(out: &mut String, octets: &[u8; 4])
    ensures
        final(out)@ == old(out)@ + ipv4_text(octets@),
{
    proof {
        reveal_strlit(".");
    }
    push_decimal(out, octets[0] as u32);
    out.append(".");
    push_decimal(out, octets[1] as u32);
    out.append(".");
    push_decimal(out, octets[2] as u32);
    out.append(".");
    push_decimal(out, octets[3] as u32);
    assert(final(out)@ =~= old(out)@ + ipv4_text(octets@));
}

/// Appends `groups`, joined by colons, to `out`.
pub fn push_groups(out: &mut String, groups: &[u16])
    ensures
        final(out)@ == old(out)@ + joined_groups(groups@),
{
    proof {
        reveal_strlit(":");
    }
    let n: usize = groups.len();
    let mut i: usize = 0;
    assert(out@ =~= old(out)@ + joined_groups(groups@.take(0)));
    while i < n
        invariant
            i <= n == groups@.len(),
            ":"@ == seq![':'],
            out@ == old(out)@ + joined_groups(groups@.take(i as int)),
        decreases n - i,
    {
        let ghost before = out@;
        if i > 0 {
            out.append(":");
        }
        push_hex(out, groups[i]);
        proof {
            let next = groups@.take(i + 1);
            assert(next.drop_last() =~= groups@.take(i as int));
            assert(next.last() == groups@[i as int]);
            assert(out@ =~= old(out)@ + joined_groups(next));
        }
        i += 1;
    }
    assert(groups@.take(n as int) =~= groups@);
}

/// Finds the first longest run of zero groups.
pub fn find_zero_run(groups: &[u16; 8]) -> (r: (usize, usize))
    ensures
        (r.0 as int, r.1 as int) == longest_zero_run(groups@, 0),
        r.0 + r.1 <= 8,
{
    let mut start: usize = 0;
    let mut len: usize = 0;
    let mut run: usize = 0;
    let mut i: usize = 8;
    while i > 0
        invariant
            i <= 8,
            groups@.len() == 8,
            run as int == zero_run(groups@, i as int),
            (start as int, len as int) == longest_zero_run(groups@, i as int),
            run <= 8 - i,
            start + len <= 8,
        decreases i,
    {
        i -= 1;
        if groups[i] == 0 {
            run += 1;
            if run >= len {
                start = i;
                len = run;
            }
        } else {
            run = 0;
        }
    }
    (start, len)
}

/// Appends the canonical text of an IPv6 address to `out`.
pub fn push_ipv6(out: &mut String, groups: &[u16; 8])
    ensures
        final(out)@ == old(out)@ + ipv6_text(groups@),
{
    if groups[0] == 0 && groups[1] == 0 && groups[2] == 0 && groups[3] == 0 && groups[4] == 0
        && groups[5] == 0xffff {
        let octets: [u8; 4] = [
            (groups[6] / 256) as u8,
            (groups[6] % 256) as u8,
            (groups[7] / 256) as u8,
            (groups[7] % 256) as u8,
        ];
        out.append("::ffff:");
        push_ipv4(out, &octets);
        proof {
            assert(octets@ =~= seq![
                (groups@[6] / 256) as u8,
                (groups@[6] % 256) as u8,
                (groups@[7] / 256) as u8,
                (groups@[7] % 256) as u8,
            ]);
            assert(final(out)@ =~= old(out)@ + ipv6_text(groups@));
        }
    } else {
        let (start, len) = find_zero_run(groups);
        let all = groups.as_slice();
        if len > 1 {
            let head = slice_subrange(all, 0, start);
            let tail = slice_subrange(all, start + len, 8);
            push_groups(out, head);
            out.append("::");
            push_groups(out, tail);
            proof {
                assert(head@ =~= groups@.take(start as int));
                assert(tail@ =~= groups@.skip(start + len));
                assert(final(out)@ =~= old(out)@ + ipv6_text(groups@));
            }
        } else {
            push_groups(out, all);
        }
    }
}

impl IpAddress {
    /// Reads an address from its characters.
    pub fn parse_chars(s: &[char]) -> (r: Result<IpAddress, AddrParseError>)
        ensures
            match ip_literal(s@) {
                Some(value) => r is Ok && r->Ok_0@ == value,
                None => r is Err,
            },
    {
        match parse_ipv4(s) {
            Some(octets) => Ok(IpAddress::V4(octets)),
            None => match parse_ipv6(s) {
                Some(groups) => Ok(IpAddress::V6(groups)),
                None => Err(AddrParseError),
            },
        }
    }

    /// Reads an address. Nothing may stand around the literal: no white
    /// space, no brackets, no zone, and no number after it.
    pub fn parse(s: &str) -> (r: Result<IpAddress, AddrParseError>)
        ensures
            match ip_literal(s@) {
                Some(value) => r is Ok && r->Ok_0@ == value,
                None => r is Err,
            },
    {
        let chars = chars_of(s);
        IpAddress::parse_chars(chars.as_slice())
    }

    /// The canonical text of the address, which reads back as the address.
    pub fn to_text(&self) -> (r: String)
        ensures
            r@ == ip_text(self@),
            ip_literal(r@) == Some(self@),
    {
        let mut out = String::new();
        match self {
            IpAddress::V4(octets) => push_ipv4(&mut out, octets),
            IpAddress::V6(groups) => push_ipv6(&mut out, groups),
        }
        proof {
            assert(out@ =~= ip_text(self@));
            lemma_canonical_text_reads_back(self@);
        }
        out
    }
}

} // verus!
