use ipapi::ip::{AddrParseError, IpAddress};

fn v4(a: u8, b: u8, c: u8, d: u8) -> IpAddress {
    IpAddress::V4([a, b, c, d])
}

fn canonical(s: &str) -> String {
    IpAddress::parse(s).unwrap().to_text()
}

#[test]
fn parses_dotted_quads() {
    assert_eq!(IpAddress::parse("192.0.2.25"), Ok(v4(192, 0, 2, 25)));
    assert_eq!(IpAddress::parse("0.0.0.0"), Ok(v4(0, 0, 0, 0)));
    assert_eq!(IpAddress::parse("255.255.255.255"), Ok(v4(255, 255, 255, 255)));
    assert_eq!(IpAddress::parse("198.51.100.255"), Ok(v4(198, 51, 100, 255)));
}

#[test]
fn rejects_malformed_dotted_quads() {
    for s in [
        "", "1", "1.2", "1.2.3", "1.2.3.4.5", "1.2.3.", ".1.2.3", "1..2.3", "256.1.1.1",
        "1.2.3.256", "01.2.3.4", "1.2.3.04", "00.0.0.0", "1.2.3.4 ", " 1.2.3.4", "1.2.3.a",
        "1.2.3.-4", "1.2.3.+4", "1000.1.1.1", "1.2.3.4/24", "0x1.2.3.4", "１.2.3.4",
    ] {
        assert_eq!(IpAddress::parse(s), Err(AddrParseError), "{:?}", s);
    }
}

#[test]
fn parses_full_ipv6() {
    assert_eq!(
        IpAddress::parse("2001:db8:0:1:2:3:4:5"),
        Ok(IpAddress::V6([0x2001, 0xdb8, 0, 1, 2, 3, 4, 5]))
    );
    assert_eq!(
        IpAddress::parse("FFFF:ffff:0000:0001:00a0:0B00:c000:000D"),
        Ok(IpAddress::V6([0xffff, 0xffff, 0, 1, 0xa0, 0xb00, 0xc000, 0xd]))
    );
}

#[test]
fn parses_compressed_ipv6() {
    assert_eq!(IpAddress::parse("::"), Ok(IpAddress::V6([0; 8])));
    assert_eq!(IpAddress::parse("::1"), Ok(IpAddress::V6([0, 0, 0, 0, 0, 0, 0, 1])));
    assert_eq!(IpAddress::parse("1::"), Ok(IpAddress::V6([1, 0, 0, 0, 0, 0, 0, 0])));
    assert_eq!(
        IpAddress::parse("2001:db8::c0:ff:ee"),
        Ok(IpAddress::V6([0x2001, 0xdb8, 0, 0, 0, 0xc0, 0xff, 0xee]))
    );
    assert_eq!(
        IpAddress::parse("2001:db8::CAFE"),
        Ok(IpAddress::V6([0x2001, 0xdb8, 0, 0, 0, 0, 0, 0xcafe]))
    );
    assert_eq!(
        IpAddress::parse("1:2:3:4:5:6:7::"),
        Ok(IpAddress::V6([1, 2, 3, 4, 5, 6, 7, 0]))
    );
    assert_eq!(
        IpAddress::parse("::2:3:4:5:6:7:8"),
        Ok(IpAddress::V6([0, 2, 3, 4, 5, 6, 7, 8]))
    );
    assert_eq!(
        IpAddress::parse("1:2:3::6:7:8"),
        Ok(IpAddress::V6([1, 2, 3, 0, 0, 6, 7, 8]))
    );
}

#[test]
fn parses_embedded_dotted_quads() {
    assert_eq!(
        IpAddress::parse("::ffff:192.0.2.128"),
        Ok(IpAddress::V6([0, 0, 0, 0, 0, 0xffff, 0xc000, 0x0280]))
    );
    assert_eq!(
        IpAddress::parse("::192.0.2.33"),
        Ok(IpAddress::V6([0, 0, 0, 0, 0, 0, 0xc000, 0x0221]))
    );
    assert_eq!(
        IpAddress::parse("1:2:3:4:5:6:1.2.3.4"),
        Ok(IpAddress::V6([1, 2, 3, 4, 5, 6, 0x0102, 0x0304]))
    );
    assert_eq!(
        IpAddress::parse("1:2:3:4:5::1.2.3.4"),
        Ok(IpAddress::V6([1, 2, 3, 4, 5, 0, 0x0102, 0x0304]))
    );
    assert_eq!(
        IpAddress::parse("64:ff9b::255.255.255.255"),
        Ok(IpAddress::V6([0x64, 0xff9b, 0, 0, 0, 0, 0xffff, 0xffff]))
    );
}

#[test]
fn rejects_malformed_ipv6() {
    for s in [
        ":", ":::", "1", "1:2", "1:2:3:4:5:6:7", "1:2:3:4:5:6:7:8:9", "1:2:3:4:5:6:7:8:",
        ":1:2:3:4:5:6:7:8", "1:2:3:4:5:6:7:8::", "::1:2:3:4:5:6:7:8", "1::2::3", "1:::2",
        "12345::", "::12345", "::g", "1:2:3:4:5:6:7:1.2.3.4", "1:2:3:4:5:6::1.2.3.4",
        "1.2.3.4::", "1.2.3.4::1", "::1.2.3.4:5", "::1.2.3", "::1.2.3.4.5", "::01.2.3.4",
        "::1.2.3.256", "[::1]", "::1%eth0", "::1 ", " ::1", "::1/128", "1:2:3:4:5:6:7:",
        ":1", "1:", "::ffff:1.2.3.4x", "dotdot.example.com", "localhost",
    ] {
        assert_eq!(IpAddress::parse(s), Err(AddrParseError), "{:?}", s);
    }
}

#[test]
fn writes_dotted_quads() {
    assert_eq!(v4(192, 0, 2, 25).to_text(), "192.0.2.25");
    assert_eq!(v4(0, 0, 0, 0).to_text(), "0.0.0.0");
    assert_eq!(v4(255, 255, 255, 255).to_text(), "255.255.255.255");
    assert_eq!(v4(10, 100, 9, 101).to_text(), "10.100.9.101");
}

#[test]
fn writes_canonical_ipv6() {
    assert_eq!(canonical("::"), "::");
    assert_eq!(canonical("0:0:0:0:0:0:0:1"), "::1");
    assert_eq!(canonical("1:0:0:0:0:0:0:0"), "1::");
    assert_eq!(canonical("2001:DB8::CAFE"), "2001:db8::cafe");
    assert_eq!(canonical("2001:0db8:0000:0000:0000:00c0:00ff:00ee"), "2001:db8::c0:ff:ee");
    assert_eq!(canonical("1:2:3:4:5:6:7:8"), "1:2:3:4:5:6:7:8");
    assert_eq!(canonical("FFFF:FFFF:FFFF:FFFF:FFFF:FFFF:FFFF:FFFF"),
        "ffff:ffff:ffff:ffff:ffff:ffff:ffff:ffff");
}

#[test]
fn a_single_zero_group_is_not_compressed() {
    assert_eq!(canonical("1:0:3:4:5:6:7:8"), "1:0:3:4:5:6:7:8");
    assert_eq!(canonical("1:2:3:4:5:6:7::"), "1:2:3:4:5:6:7:0");
    assert_eq!(canonical("::2:3:4:5:6:7:8"), "0:2:3:4:5:6:7:8");
}

#[test]
fn the_first_longest_zero_run_is_compressed() {
    assert_eq!(canonical("1:0:0:2:0:0:0:3"), "1:0:0:2::3");
    assert_eq!(canonical("1:0:0:0:2:0:0:3"), "1::2:0:0:3");
    assert_eq!(canonical("1:0:0:2:3:0:0:4"), "1::2:3:0:0:4");
    assert_eq!(canonical("0:0:1:0:0:0:0:0"), "0:0:1::");
    assert_eq!(canonical("0:0:0:1:0:0:0:2"), "::1:0:0:0:2");
}

#[test]
fn writes_mapped_addresses_with_a_dotted_quad() {
    assert_eq!(canonical("::ffff:192.0.2.128"), "::ffff:192.0.2.128");
    assert_eq!(canonical("0:0:0:0:0:ffff:c000:280"), "::ffff:192.0.2.128");
    assert_eq!(canonical("::ffff:0:0"), "::ffff:0.0.0.0");
    assert_eq!(canonical("::192.0.2.33"), "::c000:221");
    assert_eq!(canonical("::fffe:1.2.3.4"), "::fffe:102:304");
}

#[test]
fn canonical_text_reads_back_as_the_same_address() {
    for s in [
        "192.0.2.25", "::", "::1", "1::", "2001:db8::cafe", "1:0:0:2::3", "::ffff:10.1.2.3",
        "1:2:3:4:5:6:7:8", "0:2:3:4:5:6:7:8", "fe80::1:0:0:1",
    ] {
        let ip = IpAddress::parse(s).unwrap();
        assert_eq!(ip.to_text(), s);
        assert_eq!(IpAddress::parse(&ip.to_text()), Ok(ip));
    }
}

#[test]
fn the_parse_error_reads_as_a_sentence() {
    assert_eq!(AddrParseError.message(), "invalid IP address syntax");
}

#[test]
fn every_address_reads_back_from_its_text() {
    let mut state: u64 = 0x2545_f491_4f6c_dd1d;
    let mut next = move || {
        state ^= state << 13;
        state ^= state >> 7;
        state ^= state << 17;
        state
    };
    for _ in 0..2000 {
        let bits = next();
        let mask = next();
        let mut groups = [0u16; 8];
        for (i, group) in groups.iter_mut().enumerate() {
            if mask >> i & 1 == 1 {
                *group = (bits >> (i * 8)) as u16 >> (mask >> (8 + i * 2) & 3) * 4;
            }
        }
        let ip = IpAddress::V6(groups);
        let text = ip.to_text();
        assert_eq!(IpAddress::parse(&text), Ok(ip), "{}", text);
        assert!(!text.contains(":::"), "{}", text);
        assert_eq!(text, text.to_lowercase());
        let octets = [bits as u8, (bits >> 8) as u8, (mask >> 16) as u8, (mask >> 24) as u8];
        let ip = IpAddress::V4(octets);
        assert_eq!(IpAddress::parse(&ip.to_text()), Ok(ip));
        assert_eq!(
            ip.to_text(),
            format!("{}.{}.{}.{}", octets[0], octets[1], octets[2], octets[3])
        );
    }
}

#[test]
fn upper_and_lower_case_write_the_same_address() {
    assert_eq!(IpAddress::parse("2001:DB8::CAFE"), IpAddress::parse("2001:db8::cafe"));
    assert_eq!(IpAddress::parse("::FFFF:1.2.3.4"), IpAddress::parse("::ffff:1.2.3.4"));
    assert_eq!(IpAddress::parse("aBcD::"), Ok(IpAddress::V6([0xabcd, 0, 0, 0, 0, 0, 0, 0])));
}
