use ipapi::ip::IpAddress;
use ipapi::x_forwarded_for::{HeaderError, XForwardedFor};

#[derive(PartialEq, Eq, Debug)]
enum Is {
    Valid,
    Invalid,
}

fn parse_ip(ip_str: &str) -> Option<IpAddress> {
    IpAddress::parse(ip_str.trim()).ok()
}

fn test_fromstr_xforwardedfor(test_is: Is, str: &str) {
    let ip_list: Vec<IpAddress> = str.split(",").filter_map(parse_ip).collect();
    let parsed: XForwardedFor = match XForwardedFor::from_str(str) {
        Ok(result) => result,
        Err(_) => {
            assert_eq!(test_is, Is::Invalid);
            return;
        }
    };
    let header = XForwardedFor {
        ip_address: ip_list[0],
        proxy_ips: ip_list[1..].to_vec(),
    };
    assert_eq!(test_is, Is::Valid); // We should get to this point only with valid data
    assert_eq!(parsed, header);
}

#[test]
fn test_fromstr_xforwardedfor_one_ip4() {
    test_fromstr_xforwardedfor(Is::Valid, "192.0.2.25")
}

#[test]
fn test_fromstr_xforwardedfor_one_ip6() {
    test_fromstr_xforwardedfor(Is::Valid, "2001:db8::c0:ff:ee")
}

#[test]
fn test_fromstr_xforwardedfor_many_ips() {
    test_fromstr_xforwardedfor(Is::Valid, "198.51.100.255, 2001:db8::CAFE, 203.0.113.42")
}

#[test]
fn test_fromstr_xforwardedfor_hostname() {
    test_fromstr_xforwardedfor(Is::Invalid, "dotdot.example.com")
}

#[test]
fn test_fromstr_xforwardedfor_empty() {
    test_fromstr_xforwardedfor(Is::Invalid, "")
}

#[test]
fn one_address_is_the_client_without_proxies() {
    let parsed = XForwardedFor::from_str("192.0.2.25").unwrap();
    assert_eq!(parsed.ip_address, IpAddress::V4([192, 0, 2, 25]));
    assert_eq!(parsed.ip_address.to_text(), "192.0.2.25");
    assert!(parsed.proxy_ips.is_empty());
}

#[test]
fn the_first_address_is_the_client_and_the_rest_are_proxies_in_order() {
    let parsed =
        XForwardedFor::from_str("198.51.100.255, 2001:db8::cafe, 203.0.113.42").unwrap();
    assert_eq!(parsed.ip_address.to_text(), "198.51.100.255");
    let proxies: Vec<String> = parsed.proxy_ips.iter().map(|ip| ip.to_text()).collect();
    assert_eq!(proxies, vec!["2001:db8::cafe", "203.0.113.42"]);
    assert_eq!(
        parsed,
        XForwardedFor {
            ip_address: IpAddress::V4([198, 51, 100, 255]),
            proxy_ips: vec![
                IpAddress::V6([0x2001, 0xdb8, 0, 0, 0, 0, 0, 0xcafe]),
                IpAddress::V4([203, 0, 113, 42]),
            ],
        }
    );
}

#[test]
fn a_hostname_and_the_empty_string_are_invalid() {
    assert_eq!(XForwardedFor::from_str("dotdot.example.com"), Err(HeaderError));
    assert_eq!(XForwardedFor::from_str(""), Err(HeaderError));
}

#[test]
fn white_space_around_an_item_is_dropped() {
    let parsed = XForwardedFor::from_str(" \t192.0.2.1 ,\u{a0}192.0.2.2\u{3000},192.0.2.3\n")
        .unwrap();
    assert_eq!(parsed.ip_address, IpAddress::V4([192, 0, 2, 1]));
    assert_eq!(
        parsed.proxy_ips,
        vec![IpAddress::V4([192, 0, 2, 2]), IpAddress::V4([192, 0, 2, 3])]
    );
}

#[test]
fn one_bad_item_spoils_the_whole_header() {
    for value in [
        "192.0.2.1,",
        ",192.0.2.1",
        "192.0.2.1,,192.0.2.2",
        "192.0.2.1, example.com",
        "example.com, 192.0.2.1",
        "192.0.2.1 192.0.2.2",
        "192.0.2.1;192.0.2.2",
        "192. 0.2.1",
        " ",
        ",",
        "unknown",
        "192.0.2.1:8080",
        "[2001:db8::1]",
    ] {
        assert_eq!(XForwardedFor::from_str(value), Err(HeaderError), "{:?}", value);
    }
}

#[test]
fn the_header_is_read_from_exactly_one_line() {
    let one = vec![b"203.0.113.9, 198.51.100.1".to_vec()];
    assert_eq!(
        XForwardedFor::parse_header(&one),
        Ok(XForwardedFor {
            ip_address: IpAddress::V4([203, 0, 113, 9]),
            proxy_ips: vec![IpAddress::V4([198, 51, 100, 1])],
        })
    );
    let none: Vec<Vec<u8>> = vec![];
    assert_eq!(XForwardedFor::parse_header(&none), Err(HeaderError));
    let two = vec![b"203.0.113.9".to_vec(), b"198.51.100.1".to_vec()];
    assert_eq!(XForwardedFor::parse_header(&two), Err(HeaderError));
    let empty = vec![b"".to_vec()];
    assert_eq!(XForwardedFor::parse_header(&empty), Err(HeaderError));
    let not_utf8 = vec![vec![0x31, 0x2e, 0xff, 0x2e, 0x31]];
    assert_eq!(XForwardedFor::parse_header(&not_utf8), Err(HeaderError));
    let hostname = vec![b"dotdot.example.com".to_vec()];
    assert_eq!(XForwardedFor::parse_header(&hostname), Err(HeaderError));
}

#[test]
fn the_header_has_its_usual_name() {
    assert_eq!(XForwardedFor::header_name(), "X-Forwarded-For");
}
