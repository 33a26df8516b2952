use pg_harden::ip::{ip_to_string, parse_ip_addr, IpValue};
use pg_harden::error::{AppError, ConnectionError};
use pg_harden::target::{
    connect_failure_outcome, require_targets, resolve_all_targets, resolve_hostname, resolve_target, CollectStep, ResolvedTarget,
    TargetResolution,
};

/// The targets an address or CIDR input resolves to.
fn targets_of(input: &str, allow_large: bool) -> Result<Vec<ResolvedTarget>, String> {
    match resolve_target(input, allow_large)? {
        TargetResolution::Targets(v) => Ok(v),
        TargetResolution::Hostname(h) => panic!("unexpected hostname {}", h),
    }
}

#[test]
fn bare_ip_resolves() {
    let targets = targets_of("192.168.1.1", false).unwrap();
    assert_eq!(targets.len(), 1);
    assert_eq!(ip_to_string(targets[0].addr), "192.168.1.1");
}

#[test]
fn small_cidr_expands() {
    let targets = targets_of("10.0.0.0/29", false).unwrap();
    assert_eq!(targets.len(), 6);
}

#[test]
fn cidr_at_limit_allowed() {
    // /24 = 254 hosts, under the 256 cap
    let targets = targets_of("10.0.0.0/24", false).unwrap();
    assert_eq!(targets.len(), 254);
}

#[test]
fn cidr_over_limit_rejected() {
    // /23 = 510 hosts, over the 256 cap
    let err = targets_of("10.0.0.0/23", false).unwrap_err();
    assert!(err.contains("--allow-large"));
}

#[test]
fn cidr_over_limit_allowed_with_flag() {
    let targets = targets_of("10.0.0.0/23", true).unwrap();
    assert_eq!(targets.len(), 510);
}

#[test]
fn huge_ipv6_cidr_rejected_without_hanging() {
    let err = targets_of("fd00::/64", false).unwrap_err();
    assert!(err.contains("--allow-large"));
}

#[test]
fn invalid_cidr_errors() {
    assert!(targets_of("10.0.0.0/33", false).is_err());
}

// ---------------------------------------------------------------------
// Further target cases
// ---------------------------------------------------------------------

#[test]
fn cidr_hosts_skip_network_and_broadcast() {
    let targets = targets_of("10.0.0.0/29", false).unwrap();
    let labels: Vec<&str> = targets.iter().map(|t| t.label.as_str()).collect();
    assert_eq!(
        labels,
        vec!["10.0.0.1", "10.0.0.2", "10.0.0.3", "10.0.0.4", "10.0.0.5", "10.0.0.6"]
    );
    assert_eq!(targets[0].addr, IpValue::V4(0x0a00_0001));
    // The address of a CIDR input may have host bits set: the block is the same.
    let same = targets_of("10.0.0.5/29", false).unwrap();
    assert_eq!(same.len(), 6);
    assert_eq!(same[0].label, "10.0.0.1");
}

#[test]
fn point_to_point_and_single_host_blocks() {
    let p2p = targets_of("10.0.0.0/31", false).unwrap();
    assert_eq!(p2p.len(), 2);
    let one = targets_of("10.0.0.7/32", false).unwrap();
    assert_eq!(one.len(), 1);
    assert_eq!(one[0].label, "10.0.0.7");
}

#[test]
fn ipv6_cidr_expands_every_address() {
    let targets = targets_of("fd00::/126", false).unwrap();
    let labels: Vec<&str> = targets.iter().map(|t| t.label.as_str()).collect();
    assert_eq!(labels, vec!["fd00::", "fd00::1", "fd00::2", "fd00::3"]);
}

#[test]
fn cidr_error_texts() {
    assert_eq!(
        targets_of("10.0.0.0/33", false).unwrap_err(),
        "invalid CIDR notation '10.0.0.0/33': invalid IP address syntax"
    );
    assert_eq!(
        targets_of("10.0.0.0/23", false).unwrap_err(),
        "CIDR block '10.0.0.0/23' expands to more than 256 hosts; re-run with --allow-large to scan it anyway"
    );
}

#[test]
fn ipv6_bare_address_keeps_its_label() {
    let targets = targets_of("::1", false).unwrap();
    assert_eq!(targets.len(), 1);
    assert_eq!(targets[0].label, "::1");
    assert_eq!(targets[0].addr, IpValue::V6(1));
    assert_eq!(targets[0].to_display(), "::1");
}

#[test]
fn hostname_handed_back_for_lookup() {
    match resolve_target("db.example.com", false) {
        Ok(TargetResolution::Hostname(h)) => assert_eq!(h, "db.example.com"),
        _ => panic!("expected a hostname"),
    }
}

#[test]
fn hostname_addresses_deduplicated() {
    let a = parse_ip_addr("10.0.0.1").unwrap();
    let b = parse_ip_addr("fd00::1").unwrap();
    let targets = resolve_hostname("db", Ok(vec![a, b, a, b, a])).unwrap();
    assert_eq!(targets.len(), 2);
    assert_eq!(targets[0].addr, a);
    assert_eq!(targets[1].addr, b);
    assert_eq!(targets[0].label, "db");
    assert_eq!(targets[1].to_display(), "db (fd00::1)");
}

#[test]
fn hostname_lookup_errors() {
    assert_eq!(
        resolve_hostname("db", Err("failed to lookup address".to_string())).unwrap_err(),
        "DNS resolution failed for 'db': failed to lookup address"
    );
    assert_eq!(
        resolve_hostname("db", Ok(vec![])).unwrap_err(),
        "hostname 'db' resolved to no addresses"
    );
}

#[test]
fn all_targets_resolved_in_order() {
    let inputs = vec![
        " 10.0.0.1 ".to_string(),
        "db.local".to_string(),
        "10.0.1.0/30".to_string(),
    ];
    let mut collector = resolve_all_targets(&inputs, false);
    match collector.step() {
        CollectStep::Lookup(h) => assert_eq!(h, "db.local"),
        _ => panic!("expected a lookup"),
    }
    assert!(collector.looked_up(Ok(vec![IpValue::V4(0xc0a8_0001)])).is_none());
    match collector.step() {
        CollectStep::Done(v) => {
            let shown: Vec<String> = v.iter().map(|t| t.to_display()).collect();
            assert_eq!(
                shown,
                vec!["10.0.0.1", "db.local (192.168.0.1)", "10.0.1.1", "10.0.1.2"]
            );
        }
        _ => panic!("expected the targets"),
    }
}

#[test]
fn first_failing_input_stops_resolution() {
    let inputs = vec!["10.0.0.1".to_string(), "10.0.0.0/40".to_string(), "db".to_string()];
    let mut collector = resolve_all_targets(&inputs, false);
    match collector.step() {
        CollectStep::Failed(e) => assert!(e.starts_with("invalid CIDR notation '10.0.0.0/40'")),
        _ => panic!("expected a failure"),
    }
    let inputs = vec!["db".to_string()];
    let mut collector = resolve_all_targets(&inputs, false);
    assert!(matches!(collector.step(), CollectStep::Lookup(_)));
    assert_eq!(
        collector.looked_up(Ok(vec![])),
        Some("hostname 'db' resolved to no addresses".to_string())
    );
}

#[test]
fn no_resolved_target_is_an_error() {
    match require_targets(vec![]) {
        Err(AppError::Config(m)) => assert_eq!(m, "No targets resolved from input"),
        _ => panic!("expected a configuration error"),
    }
    let one = targets_of("10.0.0.1", false).unwrap();
    assert_eq!(require_targets(one).unwrap().len(), 1);
}

#[test]
fn offline_scans_continue_after_a_failed_connection() {
    assert!(connect_failure_outcome(true, ConnectionError::Connection("refused".to_string())).is_ok());
    match connect_failure_outcome(false, ConnectionError::Connection("refused".to_string())) {
        Err(AppError::Connection(ConnectionError::Connection(m))) => assert_eq!(m, "refused"),
        _ => panic!("expected the connection error"),
    }
}
