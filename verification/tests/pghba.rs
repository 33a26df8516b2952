use pg_harden::checks::pghba::{parse_hba_content, HbaEntry};
use pg_harden::ip::{netmask_prefix_len, parse_ip_addr};

fn parse(content: &str) -> Vec<HbaEntry> {
    parse_hba_content("test.conf", content)
}

#[test]
fn local_entry_parsed() {
    let entries = parse("local all all trust");
    assert_eq!(entries.len(), 1);
    assert_eq!(entries[0].method, "trust");
    assert_eq!(entries[0].entry_type, "local");
    assert!(entries[0].address.is_none());
}

#[test]
fn host_cidr_parsed() {
    let entries = parse("host all all 0.0.0.0/0 md5");
    assert_eq!(entries.len(), 1);
    assert_eq!(entries[0].method, "md5");
    assert_eq!(entries[0].address.as_deref(), Some("0.0.0.0/0"));
}

#[test]
fn host_separate_netmask_folded_to_cidr() {
    let entries = parse("host all all 10.0.0.0 255.0.0.0 scram-sha-256");
    assert_eq!(entries.len(), 1);
    assert_eq!(entries[0].method, "scram-sha-256");
    assert_eq!(entries[0].address.as_deref(), Some("10.0.0.0/8"));
}

#[test]
fn host_separate_netmask_zero_folded() {
    let entries = parse("host all all 0.0.0.0 0.0.0.0 md5");
    assert_eq!(entries.len(), 1);
    assert_eq!(entries[0].address.as_deref(), Some("0.0.0.0/0"));
}

#[test]
fn ident_detected_as_method() {
    let entries = parse("host all all 192.168.1.0/24 ident");
    assert_eq!(entries.len(), 1);
    assert_eq!(entries[0].method, "ident");
}

#[test]
fn method_found_before_options() {
    // Options after the method must not confuse detection
    let entries = parse("host all all 10.0.0.0/8 scram-sha-256 clientcert=verify-full");
    assert_eq!(entries.len(), 1);
    assert_eq!(entries[0].method, "scram-sha-256");
}

#[test]
fn comments_and_blanks_skipped() {
    let entries = parse("# host all all trust\n\n   \nlocal all all peer");
    assert_eq!(entries.len(), 1);
    assert_eq!(entries[0].method, "peer");
}

#[test]
fn include_directives_not_entries() {
    let entries = parse("include other.conf\ninclude_dir conf.d\nlocal all all peer");
    assert_eq!(entries.len(), 1);
}

#[test]
fn netmask_prefix_lengths() {
    assert_eq!(
        netmask_prefix_len(parse_ip_addr("255.255.255.0").unwrap()),
        Some(24)
    );
    assert_eq!(netmask_prefix_len(parse_ip_addr("0.0.0.0").unwrap()), Some(0));
    // Non-contiguous mask
    assert_eq!(netmask_prefix_len(parse_ip_addr("255.0.255.0").unwrap()), None);
}

// ---------------------------------------------------------------------
// Further parsing cases
// ---------------------------------------------------------------------

#[test]
fn entry_fields_and_line_numbers() {
    let entries = parse("# header\nhostssl  app   alice  10.1.2.0/24   scram-sha-256\n");
    assert_eq!(entries.len(), 1);
    let e = &entries[0];
    assert_eq!(e.source, "test.conf");
    assert_eq!(e.line, 2);
    assert_eq!(e.entry_type, "hostssl");
    assert_eq!(e.database, "app");
    assert_eq!(e.user, "alice");
    assert_eq!(e.address.as_deref(), Some("10.1.2.0/24"));
    assert_eq!(e.method, "scram-sha-256");
}

#[test]
fn ipv6_netmask_folded_to_cidr() {
    let entries = parse("host all all fd00:: ffff:ffff:: md5");
    assert_eq!(entries.len(), 1);
    assert_eq!(entries[0].address.as_deref(), Some("fd00::/32"));
}

#[test]
fn non_contiguous_netmask_kept_as_written() {
    let entries = parse("host all all 10.0.0.0 255.0.255.0 md5");
    assert_eq!(entries.len(), 1);
    assert_eq!(entries[0].method, "md5");
    assert_eq!(entries[0].address.as_deref(), Some("10.0.0.0 255.0.255.0"));
}

#[test]
fn hostname_address_kept() {
    let entries = parse("hostnossl all all db.example.com trust");
    assert_eq!(entries.len(), 1);
    assert_eq!(entries[0].address.as_deref(), Some("db.example.com"));
    assert_eq!(entries[0].method, "trust");
}

#[test]
fn line_without_known_method_skipped() {
    let entries = parse("host all all 10.0.0.0/8 frobnicate\nlocal all");
    assert!(entries.is_empty());
}

#[test]
fn full_netmask_gives_host_prefix() {
    assert_eq!(netmask_prefix_len(parse_ip_addr("255.255.255.255").unwrap()), Some(32));
    assert_eq!(
        netmask_prefix_len(parse_ip_addr("ffff:ffff:ffff:ffff::").unwrap()),
        Some(64)
    );
}
