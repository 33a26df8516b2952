use pg_harden::error::{AppError, CheckError, ConnectionError};
use pg_harden::output::{CheckResult, ScanReport, Severity, StyledText, TextColor};

fn result(passed: bool, severity: Severity) -> CheckResult {
    if passed {
        CheckResult::pass("id", "Name", severity, "ok".to_string())
    } else {
        CheckResult::fail("id", "Name", severity, "bad".to_string())
    }
}

#[test]
fn all_passed_exits_zero() {
    let report = ScanReport::new(vec![result(true, Severity::Critical), result(true, Severity::Low)]);
    assert_eq!(report.summary.total, 2);
    assert_eq!(report.summary.passed, 2);
    assert_eq!(report.summary.failed, 0);
    assert_eq!(report.exit_code(), 0);
}

#[test]
fn warnings_only_exit_one() {
    let report = ScanReport::new(vec![
        result(true, Severity::Critical),
        result(false, Severity::Medium),
        result(false, Severity::Info),
    ]);
    assert_eq!(report.summary.failed, 2);
    assert_eq!(report.summary.critical, 0);
    assert_eq!(report.summary.high, 0);
    assert_eq!(report.exit_code(), 1);
}

#[test]
fn critical_or_high_failure_exits_two() {
    let report = ScanReport::new(vec![
        result(false, Severity::High),
        result(false, Severity::Critical),
        result(false, Severity::Critical),
        result(true, Severity::High),
    ]);
    assert_eq!(report.summary.total, 4);
    assert_eq!(report.summary.passed, 1);
    assert_eq!(report.summary.failed, 3);
    assert_eq!(report.summary.critical, 2);
    assert_eq!(report.summary.high, 1);
    assert_eq!(report.exit_code(), 2);
}

#[test]
fn empty_report_exits_zero() {
    let report = ScanReport::new(vec![]);
    assert_eq!(report.summary.total, 0);
    assert_eq!(report.exit_code(), 0);
}

#[test]
fn result_builders() {
    let r = CheckResult::fail("auth-scram", "SCRAM", Severity::Critical, "bad".to_string())
        .with_details(vec!["one".to_string()])
        .with_remediation("fix it".to_string());
    assert_eq!(r.check_id, "auth-scram");
    assert_eq!(r.check_name, "SCRAM");
    assert!(!r.passed);
    assert_eq!(r.message, "bad");
    assert_eq!(r.details, Some(vec!["one".to_string()]));
    assert_eq!(r.remediation, Some("fix it".to_string()));
    let p = CheckResult::pass("x", "X", Severity::Low, "fine".to_string());
    assert!(p.passed);
    assert!(p.details.is_none() && p.remediation.is_none());
}

#[test]
fn severity_labels_and_styles() {
    assert_eq!(Severity::Info.as_str(), "INFO");
    assert_eq!(Severity::Medium.as_str(), "MEDIUM");
    let c = Severity::Critical.colored();
    assert_eq!(c.text, "CRITICAL");
    assert_eq!(c.color, TextColor::Red);
    assert!(c.bold);
    let h = Severity::High.colored();
    assert_eq!(h.color, TextColor::Red);
    assert!(!h.bold);
    assert_eq!(Severity::Low.colored().color, TextColor::Cyan);
    assert_eq!(Severity::Info.colored().color, TextColor::Blue);
    assert_eq!(Severity::Medium.colored().color, TextColor::Yellow);
}

#[test]
fn error_messages() {
    assert_eq!(
        CheckError::FileRead("x: gone".to_string()).message(),
        "File read error: x: gone"
    );
    assert_eq!(
        CheckError::QueryFailed("boom".to_string()).message(),
        "Query execution failed: boom"
    );
    assert_eq!(CheckError::RequiresConnection.message(), "Check requires database connection");
    assert_eq!(
        AppError::Connection(ConnectionError::Connection("refused".to_string())).message(),
        "Failed to connect to PostgreSQL: refused"
    );
    assert_eq!(
        AppError::Config("No connection target specified".to_string()).message(),
        "Configuration error: No connection target specified"
    );
    assert_eq!(AppError::Io("denied".to_string()).message(), "IO error: denied");
    assert_eq!(
        AppError::Check(CheckError::RequiresConnection).message(),
        "Check requires database connection"
    );
}

fn plain(line: &[StyledText]) -> String {
    line.iter().map(|t| t.text.as_str()).collect()
}

#[test]
fn result_lines_as_shown() {
    let r = CheckResult::fail("auth-pghba", "pg_hba.conf Security", Severity::Critical, "Found 1".to_string())
        .with_details(vec!["a.conf:1: bad".to_string()])
        .with_remediation("fix it".to_string());
    let lines = r.lines();
    assert_eq!(lines.len(), 3);
    assert_eq!(plain(&lines[0]), "\u{2717} [CRITICAL] pg_hba.conf Security: Found 1");
    assert_eq!(lines[0][0].color, TextColor::Red);
    assert!(lines[0][2].bold && lines[0][4].bold);
    assert_eq!(plain(&lines[1]), "    \u{2192} a.conf:1: bad");
    assert_eq!(plain(&lines[2]), "    Fix: fix it");
    assert_eq!(lines[2][1].color, TextColor::Yellow);
    // A passing result shows no remediation.
    let p = CheckResult::pass("x", "X", Severity::Low, "fine".to_string()).with_remediation("n/a".to_string());
    let pl = p.lines();
    assert_eq!(pl.len(), 1);
    assert_eq!(plain(&pl[0]), "\u{2713} [LOW] X: fine");
    assert_eq!(pl[0][0].color, TextColor::Green);
}

#[test]
fn summary_line_as_shown() {
    let report = ScanReport::new(vec![
        result(false, Severity::High),
        result(true, Severity::Low),
        result(false, Severity::Critical),
    ]);
    let line = report.summary.line("Summary");
    assert_eq!(plain(&line), "Summary: 1 passed, 2 failed (1 critical, 1 high)");
    assert_eq!(line[1].color, TextColor::Green);
    assert_eq!(line[3].color, TextColor::Red);
}
