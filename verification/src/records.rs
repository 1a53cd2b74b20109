//! What the service answers with: the record of a network that announces
//! an address, and the name of an address.

use vstd::prelude::*;
use crate::cache::Timestamp;
use crate::ip::{ip_text, IpAddress};
use crate::json_result::{
    indented, json_array, json_items, json_optional, json_string, push_indented,
    push_json_optional, push_json_string,
};
use crate::text::{decimal, push_decimal};

verus! {

/// Text that may be missing, as a mathematical value.
pub open spec fn optional_text(text: Option<String>) -> Option<Seq<char>> {
    match text {
        Some(text) => Some(text@),
        None => None,
    }
}

/// An address and the name that reverse DNS gives it, if it gives one.
#[derive(Debug, Clone, PartialEq, Eq)]
pub struct IPInfo {
    pub ip: String,
    pub name: Option<String>,
}

impl IPInfo {
    /// The record as pretty JSON. Both fields are always there: an address
    /// without a name has `"name": null`.
    pub open spec fn json(&self) -> Seq<char> {
        "{\n  \"ip\": "@ + json_string(self.ip@) + ",\n  \"name\": "@ + json_optional(
            optional_text(self.name),
        ) + "\n}"@
    }

    /// Writes the record as pretty JSON.
    pub fn to_json(&self) -> (r: String)
        ensures
            r@ == self.json(),
    {
        let mut out = String::from_str("{\n  \"ip\": ");
        push_json_string(&mut out, self.ip.as_str());
        out.append(",\n  \"name\": ");
        push_json_optional(&mut out, &self.name);
        out.append("\n}");
        out
    }
}

/// One network that announces an address, as the lookup reports it.
#[derive(Debug, Clone, PartialEq, Eq)]
pub struct AsnRecord {
    pub ip_addr: IpAddress,
    pub bgp_prefix: String,
    pub as_number: u32,
    pub as_name: String,
    pub country_code: String,
    pub registry: String,
    pub allocated: Option<String>,
    /// When the record stops being valid.
    pub expires: Timestamp,
}

/// One network that announces an address, as the service shows it: the
/// address as text, and no expiry.
#[derive(Debug, Clone, PartialEq, Eq)]
pub struct Cymru {
    pub ip_addr: String,
    pub bgp_prefix: String,
    pub as_number: u32,
    pub as_name: String,
    pub country_code: String,
    pub registry: String,
    pub allocated: Option<String>,
}

impl AsnRecord {
    /// The record as pretty JSON, in the form in which it is shown.
    pub open spec fn json(&self) -> Seq<char> {
        "{\n  \"ip_addr\": "@ + json_string(ip_text(self.ip_addr@)) + ",\n  \"bgp_prefix\": "@
            + json_string(self.bgp_prefix@) + ",\n  \"as_number\": "@ + decimal(
            self.as_number as nat,
        ) + ",\n  \"as_name\": "@ + json_string(self.as_name@) + ",\n  \"country_code\": "@
            + json_string(self.country_code@) + ",\n  \"registry\": "@ + json_string(
            self.registry@,
        ) + ",\n  \"allocated\": "@ + json_optional(optional_text(self.allocated)) + "\n}"@
    }

    /// The record in the form in which it is shown.
    pub fn to_encodable(&self) -> (r: Cymru)
        ensures
            r.ip_addr@ == ip_text(self.ip_addr@),
            r.bgp_prefix@ == self.bgp_prefix@,
            r.as_number == self.as_number,
            r.as_name@ == self.as_name@,
            r.country_code@ == self.country_code@,
            r.registry@ == self.registry@,
            optional_text(r.allocated) == optional_text(self.allocated),
            r.json() == self.json(),
    {
        let allocated = match &self.allocated {
            Some(date) => Some(date.clone()),
            None => None,
        };
        Cymru {
            ip_addr: self.ip_addr.to_text(),
            bgp_prefix: self.bgp_prefix.clone(),
            as_number: self.as_number,
            as_name: self.as_name.clone(),
            country_code: self.country_code.clone(),
            registry: self.registry.clone(),
            allocated,
        }
    }
}

impl Cymru {
    /// The record as pretty JSON: its seven fields, in this order.
    pub open spec fn json(&self) -> Seq<char> {
        "{\n  \"ip_addr\": "@ + json_string(self.ip_addr@) + ",\n  \"bgp_prefix\": "@ + json_string(
            self.bgp_prefix@,
        ) + ",\n  \"as_number\": "@ + decimal(self.as_number as nat) + ",\n  \"as_name\": "@
            + json_string(self.as_name@) + ",\n  \"country_code\": "@ + json_string(
            self.country_code@,
        ) + ",\n  \"registry\": "@ + json_string(self.registry@) + ",\n  \"allocated\": "@
            + json_optional(optional_text(self.allocated)) + "\n}"@
    }

    /// Writes the record as pretty JSON.
    pub fn to_json(&self) -> (r: String)
        ensures
            r@ == self.json(),
    {
        let mut out = String::from_str("{\n  \"ip_addr\": ");
        push_json_string(&mut out, self.ip_addr.as_str());
        out.append(",\n  \"bgp_prefix\": ");
        push_json_string(&mut out, self.bgp_prefix.as_str());
        out.append(",\n  \"as_number\": ");
        push_decimal(&mut out, self.as_number);
        out.append(",\n  \"as_name\": ");
        push_json_string(&mut out, self.as_name.as_str());
        out.append(",\n  \"country_code\": ");
        push_json_string(&mut out, self.country_code.as_str());
        out.append(",\n  \"registry\": ");
        push_json_string(&mut out, self.registry.as_str());
        out.append(",\n  \"allocated\": ");
        push_json_optional(&mut out, &self.allocated);
        out.append("\n}");
        assert(out@ =~= self.json());
        out
    }
}

/// The JSON texts of the records, in their order.
pub open spec fn records_json(records: Seq<Cymru>) -> Seq<Seq<char>> {
    Seq::new(records.len(), |i: int| records[i].json())
}

/// Writes the records as a pretty JSON array.
pub fn records_to_json(records: &[Cymru]) -> (r: String)
    ensures
        r@ == json_array(records_json(records@)),
{
    let n: usize = records.len();
    if n == 0 {
        return String::from_str("[]");
    }
    let ghost texts = records_json(records@);
    let mut out = String::from_str("[");
    let mut i: usize = 0;
    assert(out@ =~= "["@ + json_items(texts.take(0)));
    while i < n
        invariant
            i <= n == records@.len(),
            texts == records_json(records@),
            out@ == "["@ + json_items(texts.take(i as int)),
        decreases n - i,
    {
        if i == 0 {
            out.append("\n  ");
        } else {
            out.append(",\n  ");
        }
        let item = records[i].to_json();
        push_indented(&mut out, item.as_str());
        proof {
            let next = texts.take(i + 1);
            assert(next.drop_last() =~= texts.take(i as int));
            assert(next.last() == records@[i as int].json());
            assert(next[0] == texts[0]);
            assert(out@ =~= "["@ + json_items(next));
        }
        i += 1;
    }
    assert(texts.take(n as int) =~= texts);
    out.append("\n]");
    out
}

} // verus!
