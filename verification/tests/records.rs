use ipapi::cache::Timestamp;
use ipapi::ip::IpAddress;
use ipapi::json_result::as_json_result;
use ipapi::records::{records_to_json, AsnRecord, Cymru, IPInfo};
use rustc_serialize::json::as_pretty_json;
use rustc_serialize::{Encodable, Encoder};

struct Info<'a>(&'a IPInfo);

impl<'a> Encodable for Info<'a> {
    fn encode<S: Encoder>(&self, s: &mut S) -> Result<(), S::Error> {
        s.emit_struct("IPInfo", 2, |s| {
            s.emit_struct_field("ip", 0, |s| self.0.ip.encode(s))?;
            s.emit_struct_field("name", 1, |s| self.0.name.encode(s))
        })
    }
}

struct Shown<'a>(&'a Cymru);

impl<'a> Encodable for Shown<'a> {
    fn encode<S: Encoder>(&self, s: &mut S) -> Result<(), S::Error> {
        s.emit_struct("Cymru", 7, |s| {
            s.emit_struct_field("ip_addr", 0, |s| self.0.ip_addr.encode(s))?;
            s.emit_struct_field("bgp_prefix", 1, |s| self.0.bgp_prefix.encode(s))?;
            s.emit_struct_field("as_number", 2, |s| self.0.as_number.encode(s))?;
            s.emit_struct_field("as_name", 3, |s| self.0.as_name.encode(s))?;
            s.emit_struct_field("country_code", 4, |s| self.0.country_code.encode(s))?;
            s.emit_struct_field("registry", 5, |s| self.0.registry.encode(s))?;
            s.emit_struct_field("allocated", 6, |s| self.0.allocated.encode(s))
        })
    }
}

struct Data<T> {
    data: T,
}

impl<T: Encodable> Encodable for Data<T> {
    fn encode<S: Encoder>(&self, s: &mut S) -> Result<(), S::Error> {
        s.emit_struct("Data", 1, |s| s.emit_struct_field("data", 0, |s| self.data.encode(s)))
    }
}

fn google() -> AsnRecord {
    AsnRecord {
        ip_addr: IpAddress::V4([8, 8, 8, 8]),
        bgp_prefix: "8.8.8.0/24".to_string(),
        as_number: 15169,
        as_name: "GOOGLE, US".to_string(),
        country_code: "US".to_string(),
        registry: "arin".to_string(),
        allocated: Some("1992-12-01".to_string()),
        expires: Timestamp { secs: 1_700_000_000, nanos: 0 },
    }
}

fn documentation() -> AsnRecord {
    AsnRecord {
        ip_addr: IpAddress::V6([0x2001, 0xdb8, 0, 0, 0, 0, 0, 0xcafe]),
        bgp_prefix: "2001:db8::/32".to_string(),
        as_number: 4_294_967_295,
        as_name: "A \"quoted\"\nname\\".to_string(),
        country_code: "".to_string(),
        registry: "ripencc".to_string(),
        allocated: None,
        expires: Timestamp { secs: -1, nanos: 999_999_999 },
    }
}

#[test]
fn an_address_with_a_name_is_written_with_both() {
    let info = IPInfo { ip: "8.8.8.8".to_string(), name: Some("dns.google".to_string()) };
    assert_eq!(info.to_json(), "{\n  \"ip\": \"8.8.8.8\",\n  \"name\": \"dns.google\"\n}");
}

#[test]
fn an_address_without_a_name_is_written_with_null() {
    let info = IPInfo { ip: "203.0.113.9".to_string(), name: None };
    assert_eq!(info.to_json(), "{\n  \"ip\": \"203.0.113.9\",\n  \"name\": null\n}");
    assert!(info.to_json().contains("\"name\": null"));
}

#[test]
fn a_name_is_written_as_the_encoder_writes_it() {
    for name in [None, Some(""), Some("host.example"), Some("odd \"name\"\n\u{1}\\é")] {
        let info = IPInfo { ip: "2001:db8::1".to_string(), name: name.map(String::from) };
        assert_eq!(info.to_json(), format!("{}", as_pretty_json(&Info(&info))));
        assert_eq!(
            as_json_result(&info.to_json()),
            format!("{}\n", as_pretty_json(&Data { data: Info(&info) }))
        );
    }
}

#[test]
fn a_record_is_shown_with_its_address_as_text_and_without_its_expiry() {
    assert_eq!(
        google().to_encodable(),
        Cymru {
            ip_addr: "8.8.8.8".to_string(),
            bgp_prefix: "8.8.8.0/24".to_string(),
            as_number: 15169,
            as_name: "GOOGLE, US".to_string(),
            country_code: "US".to_string(),
            registry: "arin".to_string(),
            allocated: Some("1992-12-01".to_string()),
        }
    );
    let shown = documentation().to_encodable();
    assert_eq!(shown.ip_addr, "2001:db8::cafe");
    assert_eq!(shown.allocated, None);
    assert_eq!(shown.as_number, 4_294_967_295);
}

#[test]
fn a_record_is_written_with_its_seven_fields_in_order() {
    assert_eq!(
        google().to_encodable().to_json(),
        "{\n  \"ip_addr\": \"8.8.8.8\",\n  \"bgp_prefix\": \"8.8.8.0/24\",\n  \
         \"as_number\": 15169,\n  \"as_name\": \"GOOGLE, US\",\n  \"country_code\": \"US\",\n  \
         \"registry\": \"arin\",\n  \"allocated\": \"1992-12-01\"\n}"
    );
    assert_eq!(
        documentation().to_encodable().to_json(),
        "{\n  \"ip_addr\": \"2001:db8::cafe\",\n  \"bgp_prefix\": \"2001:db8::/32\",\n  \
         \"as_number\": 4294967295,\n  \"as_name\": \"A \\\"quoted\\\"\\nname\\\\\",\n  \
         \"country_code\": \"\",\n  \"registry\": \"ripencc\",\n  \"allocated\": null\n}"
    );
}

#[test]
fn a_record_is_written_as_the_encoder_writes_it() {
    for record in [google(), documentation()] {
        let shown = record.to_encodable();
        assert_eq!(shown.to_json(), format!("{}", as_pretty_json(&Shown(&shown))));
    }
}

#[test]
fn no_records_are_an_empty_array() {
    assert_eq!(records_to_json(&[]), "[]");
    assert_eq!(as_json_result(&records_to_json(&[])), "{\n  \"data\": []\n}\n");
}

#[test]
fn records_are_an_array_with_one_record_after_the_other() {
    let one = vec![google().to_encodable()];
    assert_eq!(
        records_to_json(&one),
        "[\n  {\n    \"ip_addr\": \"8.8.8.8\",\n    \"bgp_prefix\": \"8.8.8.0/24\",\n    \
         \"as_number\": 15169,\n    \"as_name\": \"GOOGLE, US\",\n    \
         \"country_code\": \"US\",\n    \"registry\": \"arin\",\n    \
         \"allocated\": \"1992-12-01\"\n  }\n]"
    );
}

#[test]
fn records_are_written_as_the_encoder_writes_them() {
    let lists = vec![
        vec![],
        vec![google().to_encodable()],
        vec![google().to_encodable(), documentation().to_encodable()],
        vec![
            documentation().to_encodable(),
            google().to_encodable(),
            documentation().to_encodable(),
        ],
    ];
    for list in lists {
        let shown: Vec<Shown> = list.iter().map(Shown).collect();
        assert_eq!(records_to_json(&list), format!("{}", as_pretty_json(&shown)));
        assert_eq!(
            as_json_result(&records_to_json(&list)),
            format!("{}\n", as_pretty_json(&Data { data: shown }))
        );
    }
}
