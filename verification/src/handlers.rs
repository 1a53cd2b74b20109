//! The three questions the service answers, from the route of a request to
//! the response. A handler that needs a lookup does not make it: it says
//! which one it needs, and a second function takes what the lookup gave.

use vstd::prelude::*;
use vstd::slice::slice_subrange;
use crate::cache::{
    is_fresh, lemma_max_age_bounds, lemma_max_age_without_fresh_records, max_age, CachePolicy,
    Timestamp, REVERSE_MAX_AGE,
};
use crate::ip::{ip_literal, ip_text, parse_error_text, IpAddress, IpValue};
use crate::json_result::{
    as_json_error, as_json_result, error_envelope, json_array, json_optional, json_string,
    result_envelope,
};
use crate::records::{optional_text, records_json, records_to_json, AsnRecord, Cymru, IPInfo};
use crate::text::{begins_with, chars_of, has_prefix, holds_char, same_text};
use crate::x_forwarded_for::{forwarded_chain, single_line, XForwardedFor};

verus! {

/// The status of a response.
#[derive(Clone, Copy, Debug, PartialEq, Eq)]
pub enum Status {
    Success,
    BadRequest,
}

/// The number of a status.
pub open spec fn status_code(status: Status) -> u16 {
    match status {
        Status::Success => 200,
        Status::BadRequest => 400,
    }
}

impl Status {
    /// The number of the status.
    pub fn code(&self) -> (r: u16)
        ensures
            r == status_code(*self),
    {
        match self {
            Status::Success => 200,
            Status::BadRequest => 400,
        }
    }
}

/// A response, ready for the transport to send.
#[derive(Clone, Debug, PartialEq, Eq)]
pub struct Response {
    pub status: Status,
    /// The body is JSON, to be sent as `application/json`.
    pub json: bool,
    /// The policy to send as `Cache-Control`, if any.
    pub cache_control: Option<CachePolicy>,
    pub body: String,
}

/// The mathematical value of a response.
pub struct ResponseView {
    pub status: Status,
    pub json: bool,
    pub cache_control: Option<CachePolicy>,
    pub body: Seq<char>,
}

impl View for Response {
    type V = ResponseView;

    open spec fn view(&self) -> ResponseView {
        ResponseView {
            status: self.status,
            json: self.json,
            cache_control: self.cache_control,
            body: self.body@,
        }
    }
}

/// The answer to a health check.
pub open spec fn health_response() -> ResponseView {
    ResponseView { status: Status::Success, json: false, cache_control: None, body: "ok"@ }
}

/// A response that succeeded, with its payload as pretty JSON.
pub open spec fn ok_response_view(payload: Seq<char>, cache: CachePolicy) -> ResponseView {
    ResponseView {
        status: Status::Success,
        json: true,
        cache_control: Some(cache),
        body: result_envelope(payload),
    }
}

/// A response to a request that cannot be served, with the reason.
pub open spec fn badreq_response_view(message: Seq<char>) -> ResponseView {
    ResponseView {
        status: Status::BadRequest,
        json: true,
        cache_control: None,
        body: error_envelope(message),
    }
}

/// Answers a health check.
pub fn ok_handler() -> (r: Response)
    ensures
        r@ == health_response(),
{
    Response { status: Status::Success, json: false, cache_control: None, body: String::from_str("ok") }
}

/// Builds the response to a request that succeeded.
pub fn ok_response(result: &str, cache: CachePolicy) -> (r: Response)
    ensures
        r@ == ok_response_view(result@, cache),
{
    Response {
        status: Status::Success,
        json: true,
        cache_control: Some(cache),
        body: as_json_result(result),
    }
}

/// Builds the response to a request that cannot be served.
pub fn badreq_response(err: &str) -> (r: Response)
    ensures
        r@ == badreq_response_view(err@),
{
    Response {
        status: Status::BadRequest,
        json: true,
        cache_control: None,
        body: as_json_error(err),
    }
}

/// What is to be done next for a request.
#[derive(Clone, Debug, PartialEq, Eq)]
pub enum Action {
    /// Look up the networks that announce the address, then call
    /// `asn_response`.
    LookupAsn(IpAddress),
    /// Resolve the name of the address, then call `name_response` with
    /// this policy.
    ResolveName(IpAddress, CachePolicy),
    /// Send the response.
    Respond(Response),
}

/// The mathematical value of an action.
pub enum ActionView {
    LookupAsn(IpValue),
    ResolveName(IpValue, CachePolicy),
    Respond(ResponseView),
}

impl View for Action {
    type V = ActionView;

    open spec fn view(&self) -> ActionView {
        match *self {
            Action::LookupAsn(ip) => ActionView::LookupAsn(ip@),
            Action::ResolveName(ip, cache) => ActionView::ResolveName(ip@, cache),
            Action::Respond(response) => ActionView::Respond(response@),
        }
    }
}

/// The first step of an ASN lookup: the address of the path is looked up
/// if the path holds one, and the request is refused with the parser's
/// words if not.
pub open spec fn cymru_action(ip_str: Seq<char>) -> ActionView {
    match ip_literal(ip_str) {
        Some(ip) => ActionView::LookupAsn(ip),
        None => ActionView::Respond(badreq_response_view(parse_error_text())),
    }
}

/// The first step of a reverse lookup: the name of the address of the
/// path is resolved, for an answer that may be cached for thirty seconds,
/// if the path holds an address, and the request is refused if not.
pub open spec fn reverse_action(ip_str: Seq<char>) -> ActionView {
    match ip_literal(ip_str) {
        Some(ip) => ActionView::ResolveName(ip, CachePolicy::Public(REVERSE_MAX_AGE)),
        None => ActionView::Respond(badreq_response_view(parse_error_text())),
    }
}

/// The address of the caller: the first of the forwarded chain where the
/// header is there and valid, the peer of the connection where it is
/// missing or invalid.
pub open spec fn client_address(forwarded_for: Option<Seq<Seq<u8>>>, peer: IpValue) -> IpValue {
    match forwarded_for {
        Some(raw) => match single_line(raw) {
            Some(value) => match forwarded_chain(value) {
                Some(chain) => chain[0],
                None => peer,
            },
            None => peer,
        },
        None => peer,
    }
}

/// The first step of "who am I": the name of the caller's address is
/// resolved, for an answer that no cache may keep.
pub open spec fn whoami_action(forwarded_for: Option<Seq<Seq<u8>>>, peer: IpValue) -> ActionView {
    ActionView::ResolveName(client_address(forwarded_for, peer), CachePolicy::NoStore)
}

/// Starts an ASN lookup for the address in the path.
pub fn cymru_handler(ip_str: &str) -> (r: Action)
    ensures
        r@ == cymru_action(ip_str@),
{
    match IpAddress::parse(ip_str) {
        Err(err) => Action::Respond(badreq_response(err.message().as_str())),
        Ok(ip) => Action::LookupAsn(ip),
    }
}

/// Starts a reverse lookup for the address in the path.
pub fn reverse_handler(ip_str: &str) -> (r: Action)
    ensures
        r@ == reverse_action(ip_str@),
{
    match IpAddress::parse(ip_str) {
        Err(err) => Action::Respond(badreq_response(err.message().as_str())),
        Ok(ip) => Action::ResolveName(ip, CachePolicy::Public(REVERSE_MAX_AGE)),
    }
}

/// Finds the address of the caller.
pub fn resolve_client(forwarded_for: Option<&[Vec<u8>]>, peer: IpAddress) -> (r: IpAddress)
    ensures
        r@ == client_address(
            match forwarded_for {
                Some(raw) => Some(raw.deep_view()),
                None => None,
            },
            peer@,
        ),
{
    match forwarded_for {
        Some(raw) => match XForwardedFor::parse_header(raw) {
            Ok(header) => header.ip_address,
            Err(_) => peer,
        },
        None => peer,
    }
}

/// Starts "who am I" for a request with the given `X-Forwarded-For` lines,
/// if it has the header, that came from `peer`.
pub fn whoami_handler(forwarded_for: Option<&[Vec<u8>]>, peer: IpAddress) -> (r: Action)
    ensures
        r@ == whoami_action(
            match forwarded_for {
                Some(raw) => Some(raw.deep_view()),
                None => None,
            },
            peer@,
        ),
{
    Action::ResolveName(resolve_client(forwarded_for, peer), CachePolicy::NoStore)
}

/// An address with the name that was found for it.
pub fn reverse_lookup(ip: &IpAddress, name: Option<String>) -> (r: IPInfo)
    ensures
        r.ip@ == ip_text(ip@),
        r.name == name,
{
    IPInfo { ip: ip.to_text(), name }
}

/// The payload that names an address.
pub open spec fn name_json(ip: IpValue, name: Option<Seq<char>>) -> Seq<char> {
    "{\n  \"ip\": "@ + json_string(ip_text(ip)) + ",\n  \"name\": "@ + json_optional(name)
        + "\n}"@
}

/// The answer to a reverse lookup or to "who am I". It always succeeds: a
/// name that could not be resolved is `null`.
pub open spec fn name_response_view(
    ip: IpValue,
    name: Option<Seq<char>>,
    cache: CachePolicy,
) -> ResponseView {
    ok_response_view(name_json(ip, name), cache)
}

/// Answers a reverse lookup or "who am I" with what the resolver found.
pub fn name_response(ip: &IpAddress, name: Option<String>, cache: CachePolicy) -> (r: Response)
    ensures
        r@ == name_response_view(ip@, optional_text(name), cache),
{
    let info = reverse_lookup(ip, name);
    let payload = info.to_json();
    ok_response(payload.as_str(), cache)
}

/// The expiries of the records, in their order.
pub open spec fn expiries_of(records: Seq<AsnRecord>) -> Seq<Timestamp> {
    Seq::new(records.len(), |i: int| records[i].expires)
}

/// The payload that shows the records.
pub open spec fn asn_json(records: Seq<AsnRecord>) -> Seq<char> {
    json_array(Seq::new(records.len(), |i: int| records[i].json()))
}

/// The answer to an ASN lookup. A lookup that failed is a bad request with
/// the lookup's words. One that succeeded is shown record by record, and
/// may be cached until the first fresh record expires.
pub open spec fn asn_response_view(
    lookup: Result<Seq<AsnRecord>, Seq<char>>,
    now: Timestamp,
) -> ResponseView {
    match lookup {
        Ok(records) => ok_response_view(
            asn_json(records),
            CachePolicy::Public(max_age(expiries_of(records), now) as u32),
        ),
        Err(message) => badreq_response_view(message),
    }
}

/// The outcome of a lookup as a mathematical value.
pub open spec fn lookup_view(lookup: Result<Vec<AsnRecord>, String>) -> Result<
    Seq<AsnRecord>,
    Seq<char>,
> {
    match lookup {
        Ok(records) => Ok(records@),
        Err(message) => Err(message@),
    }
}

/// Answers an ASN lookup with what the lookup gave, at the time `now`.
pub fn asn_response(lookup: Result<Vec<AsnRecord>, String>, now: Timestamp) -> (r: Response)
    ensures
        r@ == asn_response_view(lookup_view(lookup), now),
{
    match lookup {
        Err(err) => badreq_response(err.as_str()),
        Ok(ip2asn) => {
            let n: usize = ip2asn.len();
            let mut results: Vec<Cymru> = Vec::new();
            let mut expiries: Vec<Timestamp> = Vec::new();
            let mut i: usize = 0;
            while i < n
                invariant
                    i <= n == ip2asn@.len(),
                    results@.len() == i,
                    expiries@.len() == i,
                    forall|k: int|
                        0 <= k < i ==> (#[trigger] results@[k]).json() == ip2asn@[k].json(),
                    forall|k: int| 0 <= k < i ==> #[trigger] expiries@[k] == ip2asn@[k].expires,
                decreases n - i,
            {
                results.push(ip2asn[i].to_encodable());
                expiries.push(ip2asn[i].expires);
                i += 1;
            }
            let cache = CachePolicy::for_expiries(expiries.as_slice(), now);
            let payload = records_to_json(results.as_slice());
            proof {
                assert(expiries@ =~= expiries_of(ip2asn@));
                assert(records_json(results@) =~= Seq::new(
                    ip2asn@.len(),
                    |i: int| ip2asn@[i].json(),
                ));
            }
            ok_response(payload.as_str(), cache)
        },
    }
}

/// Where a request goes.
#[derive(Clone, Debug, PartialEq, Eq)]
pub enum Route {
    /// `GET /`
    Health,
    /// `GET /api/cymru/{ip}`, with the text that stands for `{ip}`.
    Cymru(String),
    /// `GET /api/reverse/{ip}`, with the text that stands for `{ip}`.
    Reverse(String),
    /// `GET /api/whoami/`
    Whoami,
}

/// The mathematical value of a route.
pub enum RouteView {
    Health,
    Cymru(Seq<char>),
    Reverse(Seq<char>),
    Whoami,
}

impl View for Route {
    type V = RouteView;

    open spec fn view(&self) -> RouteView {
        match *self {
            Route::Health => RouteView::Health,
            Route::Cymru(ip) => RouteView::Cymru(ip@),
            Route::Reverse(ip) => RouteView::Reverse(ip@),
            Route::Whoami => RouteView::Whoami,
        }
    }
}

/// `path` is `prefix` and then one segment: at least one character, and
/// no slash.
pub open spec fn one_segment_after(path: Seq<char>, prefix: Seq<char>) -> bool {
    &&& begins_with(path, prefix)
    &&& path.len() > prefix.len()
    &&& !path.skip(prefix.len() as int).contains('/')
}

/// The route of a request. Only `GET` is routed. The segment that stands
/// for `{ip}` is taken as it is: whether it writes an address is for the
/// handler to say.
pub open spec fn route_of(method: Seq<char>, path: Seq<char>) -> Option<RouteView> {
    if method != "GET"@ {
        None
    } else if path == "/"@ {
        Some(RouteView::Health)
    } else if path == "/api/whoami/"@ {
        Some(RouteView::Whoami)
    } else if one_segment_after(path, "/api/cymru/"@) {
        Some(RouteView::Cymru(path.skip("/api/cymru/"@.len() as int)))
    } else if one_segment_after(path, "/api/reverse/"@) {
        Some(RouteView::Reverse(path.skip("/api/reverse/"@.len() as int)))
    } else {
        None
    }
}

/// The segment after `prefix`, if `path` is `prefix` and one segment.
pub fn segment_after<'a>(path: &'a [char], prefix: &[char]) -> (r: Option<&'a [char]>)
    ensures
        match r {
            Some(segment) => one_segment_after(path@, prefix@) && segment@ == path@.skip(
                prefix@.len() as int,
            ),
            None => !one_segment_after(path@, prefix@),
        },
{
    if !has_prefix(path, prefix) || path.len() == prefix.len() {
        return None;
    }
    let segment = slice_subrange(path, prefix.len(), path.len());
    assert(segment@ =~= path@.skip(prefix@.len() as int));
    if holds_char(segment, '/') {
        None
    } else {
        Some(segment)
    }
}

/// Finds the route of a request.
pub fn dispatch(method: &str, path: &str) -> (r: Option<Route>)
    ensures
        match route_of(method@, path@) {
            Some(route) => r is Some && r->0@ == route,
            None => r is None,
        },
{
    let method_chars = chars_of(method);
    let get = chars_of("GET");
    if !same_text(method_chars.as_slice(), get.as_slice()) {
        return None;
    }
    let chars = chars_of(path);
    let root = chars_of("/");
    let whoami = chars_of("/api/whoami/");
    let cymru = chars_of("/api/cymru/");
    let reverse = chars_of("/api/reverse/");
    if same_text(chars.as_slice(), root.as_slice()) {
        return Some(Route::Health);
    }
    if same_text(chars.as_slice(), whoami.as_slice()) {
        return Some(Route::Whoami);
    }
    match segment_after(chars.as_slice(), cymru.as_slice()) {
        Some(_) => {
            let ip = path.substring_char(cymru.len(), chars.len());
            return Some(Route::Cymru(String::from_str(ip)));
        },
        None => {},
    }
    match segment_after(chars.as_slice(), reverse.as_slice()) {
        Some(_) => {
            let ip = path.substring_char(reverse.len(), chars.len());
            Some(Route::Reverse(String::from_str(ip)))
        },
        None => None,
    }
}

/// The first step for a request on a route.
pub open spec fn route_action(
    route: RouteView,
    forwarded_for: Option<Seq<Seq<u8>>>,
    peer: IpValue,
) -> ActionView {
    match route {
        RouteView::Health => ActionView::Respond(health_response()),
        RouteView::Cymru(ip_str) => cymru_action(ip_str),
        RouteView::Reverse(ip_str) => reverse_action(ip_str),
        RouteView::Whoami => whoami_action(forwarded_for, peer),
    }
}

/// Calls the handler of a route.
pub fn handle(route: &Route, forwarded_for: Option<&[Vec<u8>]>, peer: IpAddress) -> (r: Action)
    ensures
        r@ == route_action(
            route@,
            match forwarded_for {
                Some(raw) => Some(raw.deep_view()),
                None => None,
            },
            peer@,
        ),
{
    match route {
        Route::Health => Action::Respond(ok_handler()),
        Route::Cymru(ip_str) => cymru_handler(ip_str.as_str()),
        Route::Reverse(ip_str) => reverse_handler(ip_str.as_str()),
        Route::Whoami => whoami_handler(forwarded_for, peer),
    }
}

/// A path made of `/api/cymru/` or `/api/reverse/` and one segment goes to
/// the handler of that name, with the segment untouched, whatever the
/// segment holds.
pub proof fn lemma_segment_is_routed(segment: Seq<char>)
    requires
        segment.len() > 0,
        !segment.contains('/'),
    ensures
        route_of("GET"@, "/api/cymru/"@ + segment) == Some(RouteView::Cymru(segment)),
        route_of("GET"@, "/api/reverse/"@ + segment) == Some(RouteView::Reverse(segment)),
{
    reveal_strlit("/");
    reveal_strlit("/api/whoami/");
    reveal_strlit("/api/cymru/");
    reveal_strlit("/api/reverse/");
    let cymru = "/api/cymru/"@ + segment;
    let reverse = "/api/reverse/"@ + segment;
    assert(cymru[5] == 'c');
    assert(reverse[5] == 'r');
    assert("/api/whoami/"@[5] == 'w');
    assert(cymru.take(11) =~= "/api/cymru/"@);
    assert(cymru.skip(11) =~= segment);
    assert(reverse.take(13) =~= "/api/reverse/"@);
    assert(reverse.skip(13) =~= segment);
    assert(reverse.take(11)[5] == 'r');
    assert("/api/cymru/"@[5] == 'c');
}

/// The ASN and the reverse handler accept the text of the path exactly
/// when it writes an IP address, version 4 or 6, and go on with that
/// address. Any other text is refused by both as a bad request, and the
/// message of the response is the parser's error.
pub proof fn lemma_path_address_decides(ip_str: Seq<char>)
    ensures
        match ip_literal(ip_str) {
            Some(ip) => {
                &&& cymru_action(ip_str) == ActionView::LookupAsn(ip)
                &&& reverse_action(ip_str) == ActionView::ResolveName(
                    ip,
                    CachePolicy::Public(30),
                )
            },
            None => {
                &&& cymru_action(ip_str) == reverse_action(ip_str)
                &&& cymru_action(ip_str) matches ActionView::Respond(response)
                &&& response.status == Status::BadRequest
                &&& response.body == error_envelope(parse_error_text())
            },
        },
{
}

/// Asking for the same records again gives the same body and the same
/// status, whatever the time: only the cache policy follows the clock.
pub proof fn lemma_asn_body_ignores_time(
    lookup: Result<Seq<AsnRecord>, Seq<char>>,
    first: Timestamp,
    second: Timestamp,
)
    ensures
        asn_response_view(lookup, first).body == asn_response_view(lookup, second).body,
        asn_response_view(lookup, first).status == asn_response_view(lookup, second).status,
        asn_response_view(lookup, first).json == asn_response_view(lookup, second).json,
{
}

/// Whatever the records and the time, the answer to a lookup that
/// succeeded may be cached by anyone, for no more than a year; and for
/// exactly a year where no record is fresh.
pub proof fn lemma_asn_cache_bounds(records: Seq<AsnRecord>, now: Timestamp)
    ensures
        asn_response_view(Ok(records), now).cache_control matches Some(CachePolicy::Public(seconds))
            && 0 <= seconds <= 31_536_000 && seconds == max_age(expiries_of(records), now),
        (forall|i: int|
            0 <= i < records.len() ==> !is_fresh(
                (#[trigger] records[i]).expires,
                now,
            )) ==> asn_response_view(Ok(records), now).cache_control == Some(
            CachePolicy::Public(31_536_000),
        ),
{
    lemma_max_age_bounds(expiries_of(records), now);
    if forall|i: int|
        0 <= i < records.len() ==> !is_fresh((#[trigger] records[i]).expires, now) {
        assert forall|i: int| 0 <= i < expiries_of(records).len() implies !is_fresh(
            #[trigger] expiries_of(records)[i],
            now,
        ) by {
            assert(expiries_of(records)[i] == records[i].expires);
        }
        lemma_max_age_without_fresh_records(expiries_of(records), now);
    }
}

/// "Who am I" succeeds for every request: with the header or without it,
/// whatever the header holds, and whether the caller's address has a name
/// or not. Its answer is never to be cached.
pub proof fn lemma_whoami_always_succeeds(
    forwarded_for: Option<Seq<Seq<u8>>>,
    peer: IpValue,
    name: Option<Seq<char>>,
)
    ensures
        whoami_action(forwarded_for, peer) matches ActionView::ResolveName(ip, cache) && {
            &&& cache == CachePolicy::NoStore
            &&& name_response_view(ip, name, cache).status == Status::Success
            &&& status_code(name_response_view(ip, name, cache).status) == 200
            &&& name_response_view(ip, name, cache).cache_control == Some(CachePolicy::NoStore)
        },
{
}

/// A header that is there but does not hold a chain of addresses is as
/// good as none: the caller is the peer of the connection.
pub proof fn lemma_invalid_header_falls_back(raw: Seq<Seq<u8>>, peer: IpValue)
    requires
        single_line(raw) is None || forwarded_chain(single_line(raw)->0) is None,
    ensures
        client_address(Some(raw), peer) == peer,
        client_address(Some(raw), peer) == client_address(None, peer),
{
}

/// An address whose name could not be resolved is answered all the same,
/// and the answer holds the field: `"name": null`.
pub proof fn lemma_unresolved_name_is_null(ip: IpValue, cache: CachePolicy)
    ensures
        name_response_view(ip, None, cache).status == Status::Success,
        name_response_view(ip, None, cache).body == result_envelope(
            "{\n  \"ip\": "@ + json_string(ip_text(ip)) + ",\n  \"name\": null\n}"@,
        ),
{
    reveal_strlit(",\n  \"name\": ");
    reveal_strlit("null");
    reveal_strlit("\n}");
    reveal_strlit(",\n  \"name\": null\n}");
    assert(",\n  \"name\": "@ + "null"@ + "\n}"@ =~= ",\n  \"name\": null\n}"@);
    assert(name_json(ip, None) =~= "{\n  \"ip\": "@ + json_string(ip_text(ip))
        + ",\n  \"name\": null\n}"@);
}

} // verus!
