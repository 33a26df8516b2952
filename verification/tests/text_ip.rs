use pg_harden::ip::{ip_to_string, parse_ip_addr, IpValue};
use pg_harden::text::trim;

#[test]
fn trim_drops_surrounding_whitespace() {
    assert_eq!(trim("  10.0.0.1\t\n"), "10.0.0.1");
    assert_eq!(trim("a b"), "a b");
    assert_eq!(trim("   "), "");
    assert_eq!(trim(""), "");
    assert_eq!(trim("\u{3000}x\u{a0}"), "x");
}

#[test]
fn ipv4_parsing() {
    assert_eq!(parse_ip_addr("192.168.1.1"), Some(IpValue::V4(0xc0a8_0101)));
    assert_eq!(parse_ip_addr("0.0.0.0"), Some(IpValue::V4(0)));
    assert_eq!(parse_ip_addr("255.255.255.255"), Some(IpValue::V4(u32::MAX)));
    assert_eq!(parse_ip_addr("256.0.0.1"), None);
    assert_eq!(parse_ip_addr("1.2.3"), None);
    assert_eq!(parse_ip_addr("01.2.3.4"), None);
    assert_eq!(parse_ip_addr("1.2.3.4 "), None);
}

#[test]
fn ipv6_parsing() {
    assert_eq!(parse_ip_addr("::"), Some(IpValue::V6(0)));
    assert_eq!(parse_ip_addr("::1"), Some(IpValue::V6(1)));
    assert_eq!(parse_ip_addr("fd00::1"), Some(IpValue::V6(0xfd00u128 << 112 | 1)));
    assert_eq!(parse_ip_addr("::ffff:10.0.0.1"), Some(IpValue::V6(0xffff_0a00_0001)));
    assert_eq!(parse_ip_addr("1:2:3:4:5:6:7:8"), Some(IpValue::V6(0x0001_0002_0003_0004_0005_0006_0007_0008)));
    assert_eq!(parse_ip_addr("1::2::3"), None);
    assert_eq!(parse_ip_addr("db.example.com"), None);
}

#[test]
fn address_display() {
    assert_eq!(ip_to_string(IpValue::V4(0x0a00_0001)), "10.0.0.1");
    assert_eq!(ip_to_string(IpValue::V6(0)), "::");
    assert_eq!(ip_to_string(IpValue::V6(1)), "::1");
    assert_eq!(ip_to_string(IpValue::V6(0xfd00u128 << 112)), "fd00::");
    assert_eq!(ip_to_string(IpValue::V6(0xffff_0a00_0001)), "::ffff:10.0.0.1");
    assert_eq!(
        ip_to_string(IpValue::V6(0x0001_0000_0000_0002_0000_0000_0000_0003)),
        "1:0:0:2::3"
    );
    assert_eq!(
        ip_to_string(IpValue::V6(0x0001_0002_0003_0004_0005_0006_0007_0008)),
        "1:2:3:4:5:6:7:8"
    );
    assert_eq!(ip_to_string(IpValue::V6(0x0001_0000_0003_0004_0005_0006_0007_0008)), "1:0:3:4:5:6:7:8");
}
