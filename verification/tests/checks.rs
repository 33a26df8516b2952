use pg_harden::checks::auth_pghba::AuthPgHbaCheck;
use pg_harden::checks::auth_scram::AuthScramCheck;
use pg_harden::checks::hba_reject_all::{analyze_reject_all, HbaRejectAllCheck};
use pg_harden::checks::pghba::parse_hba_content;
use pg_harden::checks::ssl_enabled::SslEnabledCheck;
use pg_harden::checks::{CheckKind, CheckRegistry};
use pg_harden::error::CheckError;
use pg_harden::config::ScanConfig;
use pg_harden::output::Severity;

fn analyze(content: &str) -> Vec<String> {
    analyze_reject_all(&parse_hba_content("test.conf", content))
}

#[test]
fn pass_with_both_reject_all_rules() {
    let problems = analyze(
        "host netbox netbox 10.0.1.0/24 scram-sha-256\n\
         host all all 0.0.0.0/0 reject\n\
         host all all ::/0 reject\n",
    );
    assert!(problems.is_empty(), "unexpected: {:?}", problems);
}

#[test]
fn fail_without_any_reject_all() {
    let problems = analyze("host all all 10.0.0.0/8 scram-sha-256\n");
    assert_eq!(problems.len(), 2);
    assert!(problems[0].contains("0.0.0.0/0"));
    assert!(problems[1].contains("::/0"));
}

#[test]
fn fail_with_only_ipv4_reject_all() {
    let problems = analyze("host all all 0.0.0.0/0 reject\n");
    assert_eq!(problems.len(), 1);
    assert!(problems[0].contains("::/0"));
}

#[test]
fn reject_all_with_separate_netmask_counts() {
    let problems = analyze(
        "host all all 0.0.0.0 0.0.0.0 reject\n\
         host all all ::/0 reject\n",
    );
    assert!(problems.is_empty(), "unexpected: {:?}", problems);
}

#[test]
fn reject_all_not_matching_all_databases_fails() {
    let problems = analyze("host postgres all 0.0.0.0/0 reject\n");
    assert!(problems.iter().any(|p| p.contains("0.0.0.0/0")));
}

#[test]
fn entries_after_reject_all_flagged_unreachable() {
    let problems = analyze(
        "host all all 0.0.0.0/0 reject\n\
         host all all ::/0 reject\n\
         host late late 10.0.0.5/32 scram-sha-256\n",
    );
    assert_eq!(problems.len(), 1);
    assert!(problems[0].contains("unreachable"));
}

#[test]
fn local_entries_do_not_count_as_reject_all() {
    let problems = analyze("local all all reject\n");
    assert_eq!(problems.len(), 2);
}

// ---------------------------------------------------------------------
// Further cases of the checks
// ---------------------------------------------------------------------

#[test]
fn entry_between_reject_all_rules_flagged_unreachable() {
    let problems = analyze(
        "host all all 0.0.0.0/0 reject\n\
         host app app 10.0.0.0/8 md5\n\
         host all all ::/0 reject\n",
    );
    assert_eq!(
        problems,
        vec!["test.conf:2: entry after reject-all is unreachable (app app md5)".to_string()]
    );
}

#[test]
fn unreachable_entry_text() {
    let problems = analyze(
        "host all all ::/0 reject\n\
         host all all 0.0.0.0/0 reject\n\
         hostssl app bob 10.0.0.5/32 scram-sha-256\n",
    );
    assert_eq!(
        problems,
        vec!["test.conf:3: entry after reject-all is unreachable (app bob scram-sha-256)".to_string()]
    );
}

#[test]
fn local_entries_after_reject_all_are_not_flagged() {
    let problems = analyze(
        "host all all 0.0.0.0/0 reject\n\
         host all all ::/0 reject\n\
         local all postgres peer\n",
    );
    assert!(problems.is_empty());
}

#[test]
fn reject_all_check_result() {
    let check = HbaRejectAllCheck;
    assert_eq!(check.id(), "hba-reject-all");
    assert_eq!(check.severity(), Severity::High);
    assert!(!check.requires_connection());
    let ok = check.evaluate(&parse_hba_content(
        "t",
        "host all all 0.0.0.0/0 reject\nhost all all ::/0 reject\n",
    ));
    assert!(ok.passed);
    assert_eq!(ok.message, "pg_hba.conf ends with reject-all rules for IPv4 and IPv6");
    let bad = check.evaluate(&parse_hba_content("t", "host all all ::/0 reject\n"));
    assert!(!bad.passed);
    assert_eq!(bad.message, "pg_hba.conf is missing reject-all default rules");
    assert_eq!(
        bad.details,
        Some(vec!["No 'host all all 0.0.0.0/0 reject' rule found".to_string()])
    );
    assert!(bad.remediation.is_some());
}

#[test]
fn auth_pghba_flags_dangerous_methods() {
    let check = AuthPgHbaCheck;
    let entries = parse_hba_content(
        "h.conf",
        "local all all trust\n\
         host all all 10.0.0.0/8 scram-sha-256\n\
         host all all 10.1.0.0/16 password\n\
         host all all 10.2.0.0/16 md5\n\
         host all all 10.3.0.0/16 ident\n\
         local all all peer\n",
    );
    let r = check.evaluate(&entries, vec![]);
    assert!(!r.passed);
    assert_eq!(r.severity, Severity::Critical);
    assert_eq!(r.message, "Found 4 dangerous authentication entries");
    let details = r.details.unwrap();
    assert_eq!(details.len(), 4);
    assert_eq!(details[0], "h.conf:1: local all all - 'trust' authentication is insecure");
    assert_eq!(details[3], "h.conf:5: host all all - 'ident' authentication is insecure");
    assert!(r.remediation.is_some());
}

#[test]
fn auth_pghba_passes_with_warnings_as_details() {
    let check = AuthPgHbaCheck;
    let entries = parse_hba_content("h.conf", "local all all peer\n");
    let clean = check.evaluate(&entries, vec![]);
    assert!(clean.passed);
    assert_eq!(clean.message, "No dangerous authentication methods found");
    assert!(clean.details.is_none());
    let warned = check.evaluate(&entries, vec!["x.conf: include target not found".to_string()]);
    assert!(warned.passed);
    assert_eq!(warned.details, Some(vec!["x.conf: include target not found".to_string()]));
}

#[test]
fn auth_scram_verdicts() {
    let check = AuthScramCheck;
    assert!(check.evaluate("scram-sha-256").passed);
    let r = check.evaluate("md5");
    assert!(!r.passed);
    assert_eq!(r.message, "Password encryption is 'md5', should be 'scram-sha-256'");
    assert_eq!(r.severity, Severity::Critical);
    assert!(check.requires_connection());
    assert_eq!(check.setting(), "password_encryption");
}

#[test]
fn ssl_enabled_verdicts() {
    let check = SslEnabledCheck;
    let on = check.evaluate("on");
    assert!(on.passed);
    assert_eq!(on.message, "SSL is enabled");
    let off = check.evaluate("off");
    assert!(!off.passed);
    assert_eq!(off.message, "SSL is disabled");
    assert_eq!(check.setting(), "ssl");
}

#[test]
fn registry_lists_all_checks() {
    let registry = CheckRegistry::new();
    let ids: Vec<&str> = registry.checks().iter().map(|c| c.id()).collect();
    assert_eq!(ids, vec!["auth-scram", "ssl-enabled", "auth-pghba", "hba-reject-all"]);
    assert_eq!(
        CheckKind::AuthScram.list_line(),
        "  auth-scram           [CRITICAL] Verify SCRAM-SHA-256 is used for password encryption"
    );
}

#[test]
fn offline_scan_runs_file_checks_only() {
    let registry = CheckRegistry::new();
    let config = ScanConfig::default();
    let offline = registry.checks_to_run(&config, false);
    assert_eq!(offline, vec![CheckKind::AuthPgHba, CheckKind::HbaRejectAll]);
    let online = registry.checks_to_run(&config, true);
    assert_eq!(online.len(), 4);
}

#[test]
fn exclusion_wins_over_inclusion() {
    let registry = CheckRegistry::new();
    let config = ScanConfig {
        include_checks: Some(vec!["auth-scram".to_string(), "auth-pghba".to_string()]),
        exclude_checks: Some(vec!["auth-scram".to_string()]),
        ..ScanConfig::default()
    };
    assert!(!config.should_run_check("auth-scram"));
    assert!(config.should_run_check("auth-pghba"));
    assert!(!config.should_run_check("ssl-enabled"));
    assert_eq!(registry.checks_to_run(&config, true), vec![CheckKind::AuthPgHba]);
}

#[test]
fn failed_executions_are_dropped_in_order() {
    let registry = CheckRegistry::new();
    let mut run = registry.start_run(&ScanConfig::default(), true);
    let mut handed = Vec::new();
    while let Some(check) = run.next_check() {
        handed.push(check);
        let outcome = match check {
            CheckKind::AuthScram => Ok(AuthScramCheck.evaluate("md5")),
            CheckKind::SslEnabled => Err(CheckError::QueryFailed("boom".to_string())),
            CheckKind::AuthPgHba => Ok(AuthPgHbaCheck.evaluate(&vec![], vec![])),
            CheckKind::HbaRejectAll => Err(CheckError::FileRead("x: gone".to_string())),
        };
        run.record(outcome);
    }
    assert_eq!(
        handed,
        vec![CheckKind::AuthScram, CheckKind::SslEnabled, CheckKind::AuthPgHba, CheckKind::HbaRejectAll]
    );
    let results = run.finish();
    let ids: Vec<&str> = results.iter().map(|r| r.check_id.as_str()).collect();
    assert_eq!(ids, vec!["auth-scram", "auth-pghba"]);
}

#[test]
fn offline_run_hands_out_file_checks_only() {
    let registry = CheckRegistry::new();
    let mut run = registry.start_run(&ScanConfig::default(), false);
    assert_eq!(run.next_check(), Some(CheckKind::AuthPgHba));
    run.record(Err(CheckError::FileRead("p: gone".to_string())));
    assert_eq!(run.next_check(), Some(CheckKind::HbaRejectAll));
    run.record(Err(CheckError::FileRead("p: gone".to_string())));
    assert_eq!(run.next_check(), None);
    assert!(run.finish().is_empty());
}

#[test]
fn entry_fields_of_a_host_line() {
    let entries = parse_hba_content("f", "host db u 10.0.0.0 255.255.0.0 ldap ldapserver=x\nhost a b c\nfoo a b c trust\n");
    assert_eq!(entries.len(), 1);
    assert_eq!(entries[0].line, 1);
    assert_eq!(entries[0].database, "db");
    assert_eq!(entries[0].user, "u");
    assert_eq!(entries[0].address.as_deref(), Some("10.0.0.0/16"));
    assert_eq!(entries[0].method, "ldap");
}
