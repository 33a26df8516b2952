//! Command-line arguments as plain values, and the decisions a scan makes
//! from them.
use vstd::prelude::*;
use crate::error::AppError;

verus! {

/// PostgreSQL security hardening scanner
pub struct Cli {
    pub command: Commands,
    /// Enable verbose output
    pub verbose: bool,
}

pub enum Commands {
    /// Scan PostgreSQL instance for security issues
    Scan(ScanArgs),
    /// List available security checks
    List,
}

/// TLS for the scanner's own connection (psql `sslmode` semantics).
#[derive(Debug, Clone, Copy, PartialEq, Eq, Structural)]
pub enum SslMode {
    Disable,
    Prefer,
    Require,
    VerifyFull,
}

#[derive(Debug, Clone, Copy, PartialEq, Eq, Structural)]
pub enum OutputFormat {
    Text,
    Json,
}

pub struct ScanArgs {
    /// Target host(s): IP address, hostname, or CIDR block. Repeatable.
    pub hosts: Vec<String>,
    /// PostgreSQL port
    pub port: u16,
    /// PostgreSQL user
    pub user: String,
    /// PostgreSQL password (or use PGPASSWORD env var)
    pub password: Option<String>,
    /// PostgreSQL database
    pub database: String,
    /// Unix socket directory
    pub socket: Option<String>,
    /// The PGHOST environment variable: the target when neither hosts nor a
    /// socket are given
    pub pghost: Option<String>,
    /// Path to pg_hba.conf (auto-detected if not specified)
    pub hba_file: Option<String>,
    /// Path to postgresql.conf (auto-detected if not specified)
    pub config_file: Option<String>,
    /// Output format
    pub format: OutputFormat,
    /// Run specific checks only (comma-separated)
    pub checks: Option<Vec<String>>,
    /// Exclude specific checks (comma-separated)
    pub exclude: Option<Vec<String>>,
    /// Connection timeout in seconds
    pub timeout: u64,
    /// Continue even if connection fails (file-based checks only)
    pub offline: bool,
    /// TLS mode for the scanner's own connection
    pub ssl_mode: SslMode,
    /// Allow CIDR blocks of more than 256 hosts
    pub allow_large: bool,
}

impl ScanArgs {
    /// Whether any connection target is specified (host or socket).
    pub fn has_target(&self) -> (b: bool)
        ensures
            b == (self.hosts.len() > 0 || self.socket is Some),
    {
        self.hosts.len() > 0 || self.socket.is_some()
    }
}

/// How a scan reaches its server.
pub enum ScanPlan {
    /// File-based checks only, on the local host.
    Offline,
    /// One server through a Unix socket directory.
    Socket(String),
    /// TCP targets: addresses, CIDR blocks and hostnames to resolve.
    Hosts(Vec<String>),
}

pub enum PlanView {
    Offline,
    Socket(Seq<char>),
    Hosts(Seq<Seq<char>>),
    ConfigError(Seq<char>),
}

pub open spec fn string_seq(v: Seq<String>) -> Seq<Seq<char>> {
    v.map_values(|s: String| s@)
}

/// The plan for a scan: `-s` and `-H` together are an error; without
/// either, `PGHOST` is the target (a socket directory when it starts with
/// `/`), and without that an offline scan, or an error when not offline.
pub open spec fn scan_plan(
    hosts: Seq<Seq<char>>,
    socket: Option<Seq<char>>,
    pghost: Option<Seq<char>>,
    offline: bool,
) -> PlanView {
    if hosts.len() > 0 && socket is Some {
        PlanView::ConfigError("--socket cannot be combined with --host"@)
    } else if hosts.len() > 0 {
        PlanView::Hosts(hosts)
    } else if socket is Some {
        PlanView::Socket(socket->0)
    } else if pghost is Some {
        let h = pghost->0;
        if h.len() > 0 && h[0] == '/' {
            PlanView::Socket(h)
        } else {
            PlanView::Hosts(seq![h])
        }
    } else if offline {
        PlanView::Offline
    } else {
        PlanView::ConfigError("No connection target specified"@)
    }
}

/// Explicit `-H` targets are scanned as given, whatever `PGHOST` holds,
/// and combining them with `-s` is an error; `PGHOST` is only the fallback
/// when neither is given.
pub proof fn law_explicit_targets_win(
    hosts: Seq<Seq<char>>,
    socket: Option<Seq<char>>,
    pghost: Option<Seq<char>>,
    offline: bool,
)
    ensures
        hosts.len() > 0 && socket is None ==> scan_plan(hosts, socket, pghost, offline)
            == PlanView::Hosts(hosts),
        hosts.len() > 0 && socket is Some ==> scan_plan(hosts, socket, pghost, offline) is ConfigError,
        hosts.len() == 0 ==> (socket matches Some(s) ==> scan_plan(hosts, socket, pghost, offline)
            == PlanView::Socket(s)),
{
}

pub open spec fn opt_string(o: Option<String>) -> Option<Seq<char>> {
    match o {
        Some(s) => Some(s@),
        None => None,
    }
}

pub open spec fn plan_view(r: Result<ScanPlan, AppError>) -> PlanView {
    match r {
        Ok(ScanPlan::Offline) => PlanView::Offline,
        Ok(ScanPlan::Socket(s)) => PlanView::Socket(s@),
        Ok(ScanPlan::Hosts(h)) => PlanView::Hosts(string_seq(h@)),
        Err(AppError::Config(m)) => PlanView::ConfigError(m@),
        Err(_) => PlanView::ConfigError(seq![]),
    }
}

fn clone_strings(v: &Vec<String>) -> (r: Vec<String>)
    ensures
        string_seq(r@) == string_seq(v@),
{
    let mut r: Vec<String> = Vec::new();
    let mut k: usize = 0;
    while k < v.len()
        invariant
            k <= v.len(),
            string_seq(r@) == string_seq(v@.take(k as int)),
        decreases v.len() - k,
    {
        let ghost before = string_seq(r@);
        let c = v[k].clone();
        r.push(c);
        proof {
            assert(string_seq(r@) =~= before.push(v@[k as int]@));
            assert(v@.take(k + 1) == v@.take(k as int).push(v@[k as int]));
            assert(string_seq(r@) =~= string_seq(v@.take(k + 1)));
        }
        k = k + 1;
    }
    assert(v@.take(v.len() as int) == v@);
    r
}

/// Decides how the scan reaches its server.
pub fn plan_scan(args: &ScanArgs) -> (r: Result<ScanPlan, AppError>)
    ensures
        plan_view(r) == scan_plan(
            string_seq(args.hosts@),
            opt_string(args.socket),
            opt_string(args.pghost),
            args.offline,
        ),
        r matches Err(e) ==> e is Config,
{
    if args.hosts.len() > 0 && args.socket.is_some() {
        return Err(AppError::Config(String::from_str("--socket cannot be combined with --host")));
    }
    if args.hosts.len() > 0 {
        return Ok(ScanPlan::Hosts(clone_strings(&args.hosts)));
    }
    if let Some(s) = &args.socket {
        return Ok(ScanPlan::Socket(s.clone()));
    }
    if let Some(h) = &args.pghost {
        let c = crate::text::chars_of(h.as_str());
        if c.len() > 0 && c[0] == '/' {
            return Ok(ScanPlan::Socket(h.clone()));
        } else {
            let mut v: Vec<String> = Vec::new();
            v.push(h.clone());
            assert(string_seq(v@) =~= seq![h@]);
            return Ok(ScanPlan::Hosts(v));
        }
    }
    if args.offline {
        Ok(ScanPlan::Offline)
    } else {
        Err(AppError::Config(String::from_str("No connection target specified")))
    }
}

} // verus!
