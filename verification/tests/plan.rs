use pg_harden::cli::{plan_scan, OutputFormat, ScanArgs, ScanPlan, SslMode};
use pg_harden::connection::{redacted_display, setting_query, tls_plan, ConnectParams, PgSslMode, TlsPlan};
use pg_harden::error::AppError;

fn args() -> ScanArgs {
    ScanArgs {
        hosts: vec![],
        port: 5432,
        user: "postgres".to_string(),
        password: None,
        database: "postgres".to_string(),
        socket: None,
        pghost: None,
        hba_file: None,
        config_file: None,
        format: OutputFormat::Text,
        checks: None,
        exclude: None,
        timeout: 10,
        offline: false,
        ssl_mode: SslMode::Prefer,
        allow_large: false,
    }
}

fn config_error(r: Result<ScanPlan, AppError>) -> String {
    match r {
        Err(AppError::Config(m)) => m,
        _ => panic!("expected a configuration error"),
    }
}

#[test]
fn explicit_hosts_are_not_shadowed_by_pghost() {
    let a = ScanArgs {
        hosts: vec!["10.0.0.1".to_string()],
        pghost: Some("other".to_string()),
        ..args()
    };
    assert!(a.has_target());
    match plan_scan(&a) {
        Ok(ScanPlan::Hosts(h)) => assert_eq!(h, vec!["10.0.0.1".to_string()]),
        _ => panic!("expected the given hosts"),
    }
}

#[test]
fn socket_with_host_is_an_error() {
    let a = ScanArgs {
        hosts: vec!["10.0.0.1".to_string()],
        socket: Some("/run/postgresql".to_string()),
        ..args()
    };
    assert_eq!(config_error(plan_scan(&a)), "--socket cannot be combined with --host");
}

#[test]
fn pghost_is_the_fallback_target() {
    let a = ScanArgs { pghost: Some("db.local".to_string()), ..args() };
    assert!(!a.has_target());
    match plan_scan(&a) {
        Ok(ScanPlan::Hosts(h)) => assert_eq!(h, vec!["db.local".to_string()]),
        _ => panic!("expected PGHOST as the host"),
    }
    let s = ScanArgs { pghost: Some("/var/run/postgresql".to_string()), ..args() };
    match plan_scan(&s) {
        Ok(ScanPlan::Socket(d)) => assert_eq!(d, "/var/run/postgresql"),
        _ => panic!("expected PGHOST as a socket directory"),
    }
}

#[test]
fn no_target_is_offline_or_an_error() {
    let off = ScanArgs { offline: true, ..args() };
    assert!(matches!(plan_scan(&off), Ok(ScanPlan::Offline)));
    assert_eq!(config_error(plan_scan(&args())), "No connection target specified");
    let sock = ScanArgs { socket: Some("/tmp".to_string()), ..args() };
    assert!(matches!(plan_scan(&sock), Ok(ScanPlan::Socket(_))));
}

#[test]
fn connection_text_hides_the_password() {
    let a = ScanArgs {
        password: Some("s3cret word".to_string()),
        ssl_mode: SslMode::VerifyFull,
        ..args()
    };
    let p = ConnectParams::from_args(&a, "db.local");
    assert_eq!(p.host, "db.local");
    assert_eq!(p.password, Some("s3cret word"));
    let shown = redacted_display(&p);
    assert_eq!(
        shown,
        "host=db.local port=5432 user=postgres dbname=postgres connect_timeout=10 sslmode=VerifyFull password=***"
    );
    assert!(!shown.contains("s3cret"));
    let b = args();
    let q = ConnectParams::from_socket(&b, "/run/postgresql");
    assert_eq!(
        redacted_display(&q),
        "host=/run/postgresql port=5432 user=postgres dbname=postgres connect_timeout=10 sslmode=Prefer"
    );
}

#[test]
fn tls_plans() {
    let mut a = args();
    assert_eq!(
        tls_plan(&ConnectParams::from_args(&a, "db")),
        TlsPlan::Tls { mode: PgSslMode::Prefer, verify: false }
    );
    assert_eq!(tls_plan(&ConnectParams::from_socket(&a, "/tmp")), TlsPlan::Plaintext);
    a.ssl_mode = SslMode::Require;
    assert_eq!(
        tls_plan(&ConnectParams::from_args(&a, "db")),
        TlsPlan::Tls { mode: PgSslMode::Require, verify: false }
    );
    a.ssl_mode = SslMode::VerifyFull;
    assert_eq!(
        tls_plan(&ConnectParams::from_args(&a, "db")),
        TlsPlan::Tls { mode: PgSslMode::Require, verify: true }
    );
    a.ssl_mode = SslMode::Disable;
    assert_eq!(tls_plan(&ConnectParams::from_args(&a, "db")), TlsPlan::Plaintext);
}

#[test]
fn setting_queries() {
    assert_eq!(setting_query("hba_file"), "SHOW hba_file");
    assert_eq!(setting_query("password_encryption"), "SHOW password_encryption");
}
