//! Connection parameters for a single target and the decisions made about
//! the connection before it is opened.
use vstd::prelude::*;
use crate::cli::{ScanArgs, SslMode};
use crate::text::{decimal, push_decimal, push_str, vec_to_string};

verus! {

/// Connection parameters for a single target.
pub struct ConnectParams<'a> {
    pub host: &'a str,
    pub port: u16,
    pub user: &'a str,
    pub password: Option<&'a str>,
    pub database: &'a str,
    pub timeout: u64,
    pub ssl_mode: SslMode,
}

pub open spec fn opt_str_view(o: Option<&str>) -> Option<Seq<char>> {
    match o {
        Some(s) => Some(s@),
        None => None,
    }
}

pub open spec fn opt_string_view(o: Option<String>) -> Option<Seq<char>> {
    match o {
        Some(s) => Some(s@),
        None => None,
    }
}

/// Whether the parameters are `args`' settings for the given host.
pub open spec fn params_for(p: ConnectParams, args: ScanArgs, host: Seq<char>) -> bool {
    &&& p.host@ == host
    &&& p.port == args.port
    &&& p.user@ == args.user@
    &&& opt_str_view(p.password) == opt_string_view(args.password)
    &&& p.database@ == args.database@
    &&& p.timeout == args.timeout
    &&& p.ssl_mode == args.ssl_mode
}

fn password_of(p: &Option<String>) -> (r: Option<&str>)
    ensures
        opt_str_view(r) == opt_string_view(*p),
{
    match p {
        Some(s) => Some(s.as_str()),
        None => None,
    }
}

impl<'a> ConnectParams<'a> {
    /// Build params for a specific host from ScanArgs.
    pub fn from_args(args: &'a ScanArgs, host: &'a str) -> (p: Self)
        ensures
            params_for(p, *args, host@),
    {
        ConnectParams {
            host,
            port: args.port,
            user: args.user.as_str(),
            password: password_of(&args.password),
            database: args.database.as_str(),
            timeout: args.timeout,
            ssl_mode: args.ssl_mode,
        }
    }

    /// Build params for a socket connection from ScanArgs.
    pub fn from_socket(args: &'a ScanArgs, socket: &'a str) -> (p: Self)
        ensures
            params_for(p, *args, socket@),
    {
        ConnectParams {
            host: socket,
            port: args.port,
            user: args.user.as_str(),
            password: password_of(&args.password),
            database: args.database.as_str(),
            timeout: args.timeout,
            ssl_mode: args.ssl_mode,
        }
    }
}

/// The `Debug` text of a TLS mode.
pub open spec fn ssl_mode_text(m: SslMode) -> Seq<char> {
    match m {
        SslMode::Disable => "Disable"@,
        SslMode::Prefer => "Prefer"@,
        SslMode::Require => "Require"@,
        SslMode::VerifyFull => "VerifyFull"@,
    }
}

/// The connection settings as shown in verbose output, the password
/// replaced by `***`.
pub open spec fn redacted_text(p: ConnectParams) -> Seq<char> {
    "host="@ + p.host@ + " port="@ + decimal(p.port as nat) + " user="@ + p.user@ + " dbname="@
        + p.database@ + " connect_timeout="@ + decimal(p.timeout as nat) + " sslmode="@
        + ssl_mode_text(p.ssl_mode) + if p.password is Some {
        " password=***"@
    } else {
        seq![]
    }
}

/// The verbose connection text never depends on the password: parameters
/// that differ only in the password's value are shown alike.
pub proof fn law_redaction_hides_password(p: ConnectParams, q: ConnectParams)
    requires
        p.host@ == q.host@,
        p.port == q.port,
        p.user@ == q.user@,
        p.database@ == q.database@,
        p.timeout == q.timeout,
        p.ssl_mode == q.ssl_mode,
        p.password is Some <==> q.password is Some,
    ensures
        redacted_text(p) == redacted_text(q),
{
}

/// The connection settings as shown in verbose output, without the password.
pub fn redacted_display(params: &ConnectParams<'_>) -> (s: String)
    ensures
        s@ == redacted_text(*params),
{
    let mut m: Vec<char> = Vec::new();
    push_str(&mut m, "host=");
    push_str(&mut m, params.host);
    push_str(&mut m, " port=");
    push_decimal(&mut m, params.port as u64);
    push_str(&mut m, " user=");
    push_str(&mut m, params.user);
    push_str(&mut m, " dbname=");
    push_str(&mut m, params.database);
    push_str(&mut m, " connect_timeout=");
    push_decimal(&mut m, params.timeout);
    push_str(&mut m, " sslmode=");
    match params.ssl_mode {
        SslMode::Disable => push_str(&mut m, "Disable"),
        SslMode::Prefer => push_str(&mut m, "Prefer"),
        SslMode::Require => push_str(&mut m, "Require"),
        SslMode::VerifyFull => push_str(&mut m, "VerifyFull"),
    }
    if params.password.is_some() {
        push_str(&mut m, " password=***");
    }
    proof {
        assert(m@ =~= redacted_text(*params));
    }
    vec_to_string(&m)
}

/// The `sslmode` that the connection is configured with.
#[derive(Debug, Clone, Copy, PartialEq, Eq, Structural)]
pub enum PgSslMode {
    Disable,
    Prefer,
    Require,
}

/// How the connection is encrypted.
#[derive(Debug, Clone, Copy, PartialEq, Eq, Structural)]
pub enum TlsPlan {
    /// No TLS at all.
    Plaintext,
    /// TLS in the given mode; `verify` checks the certificate chain and the
    /// hostname against the Mozilla CA roots.
    Tls { mode: PgSslMode, verify: bool },
}

/// TLS is meaningless over a Unix socket (a host starting with `/`): always
/// plaintext there, as psql does, and for `disable`; `verify-full` requires
/// TLS and verifies, `require` requires it without verifying, `prefer`
/// tries it without verifying.
pub open spec fn tls_plan_for(host: Seq<char>, mode: SslMode) -> TlsPlan {
    if (host.len() > 0 && host[0] == '/') || mode == SslMode::Disable {
        TlsPlan::Plaintext
    } else {
        match mode {
            SslMode::Prefer => TlsPlan::Tls { mode: PgSslMode::Prefer, verify: false },
            SslMode::Require => TlsPlan::Tls { mode: PgSslMode::Require, verify: false },
            _ => TlsPlan::Tls { mode: PgSslMode::Require, verify: true },
        }
    }
}

/// A Unix socket connection is never encrypted; over TCP, `require` and
/// `verify-full` never allow a plaintext connection, and only `verify-full`
/// checks the certificate.
pub proof fn law_tls_plan(host: Seq<char>, mode: SslMode)
    ensures
        host.len() > 0 && host[0] == '/' ==> tls_plan_for(host, mode) == TlsPlan::Plaintext,
        !(host.len() > 0 && host[0] == '/') && (mode == SslMode::Require || mode
            == SslMode::VerifyFull) ==> tls_plan_for(host, mode) == (TlsPlan::Tls {
            mode: PgSslMode::Require,
            verify: mode == SslMode::VerifyFull,
        }),
        tls_plan_for(host, mode) matches TlsPlan::Tls { verify, .. } ==> (verify <==> mode
            == SslMode::VerifyFull),
{
}

/// How the connection for these parameters is encrypted.
pub fn tls_plan(params: &ConnectParams<'_>) -> (t: TlsPlan)
    ensures
        t == tls_plan_for(params.host@, params.ssl_mode),
{
    let host = crate::text::chars_of(params.host);
    let plaintext_only = (host.len() > 0 && host[0] == '/') || params.ssl_mode
        == SslMode::Disable;
    if plaintext_only {
        return TlsPlan::Plaintext;
    }
    match params.ssl_mode {
        SslMode::Prefer => TlsPlan::Tls { mode: PgSslMode::Prefer, verify: false },
        SslMode::Require => TlsPlan::Tls { mode: PgSslMode::Require, verify: false },
        _ => TlsPlan::Tls { mode: PgSslMode::Require, verify: true },
    }
}

/// The statement that reads a server setting.
pub fn setting_query(setting: &str) -> (q: String)
    ensures
        q@ == "SHOW "@ + setting@,
{
    let mut m: Vec<char> = Vec::new();
    push_str(&mut m, "SHOW ");
    push_str(&mut m, setting);
    vec_to_string(&m)
}

} // verus!
