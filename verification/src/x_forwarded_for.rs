//! The `X-Forwarded-For` header: the chain of addresses a request came
//! through, the caller first.

use vstd::prelude::*;
use vstd::utf8::{decode_utf8, valid_utf8};
use crate::ip::{gap_index, group_list, ip_literal, ipv4_octets, IpAddress, IpValue};
use crate::text::{
    chars_of, lemma_index_of, lemma_split_pieces, split, split_on, trim, trimmed,
};

verus! {

/// The error of a header that does not hold a chain of addresses.
#[derive(Clone, Copy, Debug, PartialEq, Eq)]
pub struct HeaderError;

/// A parsed `X-Forwarded-For` header.
#[derive(Clone, PartialEq, Eq, Debug)]
pub struct XForwardedFor {
    /// The address of the caller: the first of the chain.
    pub ip_address: IpAddress,
    /// The proxies the request passed after it, in the header's order.
    pub proxy_ips: Vec<IpAddress>,
}

/// The addresses that a header value lists. The value is cut at its commas,
/// white space around each item is dropped, and every item has to write an
/// IP address: one that does not makes the whole value invalid.
pub open spec fn forwarded_chain(value: Seq<char>) -> Option<Seq<IpValue>> {
    let items = split(value, ',');
    if forall|i: int| 0 <= i < items.len() ==> ip_literal(trimmed(#[trigger] items[i])) is Some {
        Some(Seq::new(items.len(), |i: int| ip_literal(trimmed(items[i]))->0))
    } else {
        None
    }
}

/// The text of a header that was sent as exactly one line, not empty, in
/// valid UTF-8.
pub open spec fn single_line(raw: Seq<Seq<u8>>) -> Option<Seq<char>> {
    if raw.len() == 1 && raw[0].len() > 0 && valid_utf8(raw[0]) {
        Some(decode_utf8(raw[0]))
    } else {
        None
    }
}

/// `hyper::header::parsing::from_one_raw_str`, asked for a `String`: the one
/// line of the header as text. Not proved: that hyper accepts exactly the
/// headers of one non-empty line of valid UTF-8, and returns that line
/// unchanged.
#[verifier::external_body]
fn one_raw_str(raw: &[Vec<u8>]) -> (r: Option<String>)
    ensures
        match single_line(raw.deep_view()) {
            Some(text) => r is Some && r->0@ == text,
            None => r is None,
        },
{
    hyper::header::parsing::from_one_raw_str::<String>(raw).ok()
}

impl XForwardedFor {
    /// The whole chain: the caller, then the proxies.
    pub open spec fn chain(&self) -> Seq<IpValue> {
        seq![self.ip_address@] + Seq::new(self.proxy_ips@.len(), |i: int| self.proxy_ips@[i]@)
    }

    /// The name of the header.
    pub fn header_name() -> (r: &'static str)
        ensures
            r@ == "X-Forwarded-For"@,
    {
        "X-Forwarded-For"
    }

    /// Reads the value of the header.
    pub fn from_str(value: &str) -> (r: Result<XForwardedFor, HeaderError>)
        ensures
            match forwarded_chain(value@) {
                Some(chain) => r is Ok && r->Ok_0.chain() == chain,
                None => r is Err,
            },
    {
        let chars = chars_of(value);
        let items = split_on(chars.as_slice(), ',');
        let ghost texts = split(value@, ',');
        proof {
            lemma_split_pieces(value@, ',');
        }
        let n: usize = items.len();
        let mut ip_addrs: Vec<IpAddress> = Vec::new();
        let mut i: usize = 0;
        while i < n
            invariant
                i <= n == items@.len(),
                texts == split(value@, ','),
                texts.len() == n,
                forall|k: int| 0 <= k < n ==> (#[trigger] items@[k])@ == texts[k],
                ip_addrs@.len() == i,
                forall|k: int|
                    0 <= k < i ==> ip_literal(trimmed(#[trigger] texts[k])) == Some(ip_addrs@[k]@),
            decreases n - i,
        {
            match IpAddress::parse_chars(trim(items[i])) {
                Ok(ip) => ip_addrs.push(ip),
                Err(_) => {
                    assert(ip_literal(trimmed(texts[i as int])) is None);
                    return Err(HeaderError);
                },
            }
            i += 1;
        }
        if ip_addrs.len() == 0 {
            return Err(HeaderError);
        }
        let ip_address = ip_addrs[0];
        let mut proxy_ips: Vec<IpAddress> = Vec::new();
        let mut j: usize = 1;
        while j < n
            invariant
                1 <= j <= n == ip_addrs@.len(),
                proxy_ips@.len() == j - 1,
                forall|k: int| 0 <= k < j - 1 ==> proxy_ips@[k] == ip_addrs@[k + 1],
            decreases n - j,
        {
            proxy_ips.push(ip_addrs[j]);
            j += 1;
        }
        let parsed = XForwardedFor { ip_address, proxy_ips };
        proof {
            assert forall|k: int| 0 <= k < texts.len() implies ip_literal(
                trimmed(#[trigger] texts[k]),
            ) is Some by {}
            assert(parsed.chain() =~= forwarded_chain(value@)->0);
        }
        Ok(parsed)
    }

    /// Reads the header from the lines it was sent as. A header sent twice,
    /// an empty one and one that is not UTF-8 are all invalid.
    pub fn parse_header(raw: &[Vec<u8>]) -> (r: Result<XForwardedFor, HeaderError>)
        ensures
            match single_line(raw.deep_view()) {
                Some(text) => match forwarded_chain(text) {
                    Some(chain) => r is Ok && r->Ok_0.chain() == chain,
                    None => r is Err,
                },
                None => r is Err,
            },
    {
        match one_raw_str(raw) {
            Some(text) => XForwardedFor::from_str(text.as_str()),
            None => Err(HeaderError),
        }
    }
}

/// A header that is valid lists at least one address: the caller's.
pub proof fn lemma_chain_is_never_empty(value: Seq<char>)
    requires
        forwarded_chain(value) is Some,
    ensures
        forwarded_chain(value)->0.len() >= 1,
        forwarded_chain(value)->0.len() == split(value, ',').len(),
{
    lemma_split_pieces(value, ',');
}

/// The empty value is no valid header, nor is one made of white space.
pub proof fn lemma_blank_header_is_invalid(value: Seq<char>)
    requires
        trimmed(value).len() == 0,
        !value.contains(','),
    ensures
        forwarded_chain(value) is None,
{
    lemma_index_of(value, ',', value.len() as int);
    assert(split(value, ',')[0] == value);
    assert(split(trimmed(value), '.') =~= seq![trimmed(value)]) by {
        lemma_index_of(trimmed(value), '.', 0);
    }
    assert(split(trimmed(value), ':') =~= seq![trimmed(value)]) by {
        lemma_index_of(trimmed(value), ':', 0);
    }
    assert(ipv4_octets(trimmed(value)) is None);
    assert(gap_index(trimmed(value)) == 0);
    assert(group_list(trimmed(value), true) == Some(Seq::<u16>::empty()));
    assert(ip_literal(trimmed(value)) is None);
}

} // verus!
