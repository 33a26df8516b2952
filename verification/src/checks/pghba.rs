//! pg_hba.conf parsing, including `include` directive expansion.
//!
//! Used by the `auth-pghba` and `hba-reject-all` checks.
use vstd::prelude::*;
use crate::config::ScanConfig;
use crate::error::CheckError;
use crate::ip::{ip_text, netmask_prefix, netmask_prefix_len, parse_ip, parse_ip_chars, push_ip};
use crate::text::{
    chars_eq, chars_eq_str, chars_of, chars_start_with, copy_range, decimal, is_whitespace, line_end,
    lemma_line_end_bounds, lemma_tokens_nonempty, lines, lines_from, push_decimal, push_str, split_tokens,
    strip_at_signs, strip_leading_at, tokens, vec_to_string, views,
};

verus! {

/// A parsed pg_hba.conf entry.
#[derive(Debug, Clone, PartialEq, Eq)]
pub struct HbaEntry {
    /// File the entry was read from (differs when reached via include)
    pub source: String,
    /// 1-based line number within the source file
    pub line: usize,
    /// local, host, hostssl, hostnossl, hostgssenc, hostnogssenc
    pub entry_type: String,
    pub database: String,
    pub user: String,
    /// CIDR/hostname for host-type entries; None for local
    pub address: Option<String>,
    pub method: String,
}

/// An entry as plain character sequences.
pub struct HbaEntryView {
    pub source: Seq<char>,
    pub line: nat,
    pub entry_type: Seq<char>,
    pub database: Seq<char>,
    pub user: Seq<char>,
    pub address: Option<Seq<char>>,
    pub method: Seq<char>,
}

pub open spec fn opt_view(o: Option<String>) -> Option<Seq<char>> {
    match o {
        Some(s) => Some(s@),
        None => None,
    }
}

impl View for HbaEntry {
    type V = HbaEntryView;

    open spec fn view(&self) -> HbaEntryView {
        HbaEntryView {
            source: self.source@,
            line: self.line as nat,
            entry_type: self.entry_type@,
            database: self.database@,
            user: self.user@,
            address: opt_view(self.address),
            method: self.method@,
        }
    }
}

/// The views of a sequence of entries.
pub open spec fn entry_views(v: Seq<HbaEntry>) -> Seq<HbaEntryView> {
    v.map_values(|e: HbaEntry| e@)
}

/// Whether `s` begins with `p`.
pub open spec fn starts_with(s: Seq<char>, p: Seq<char>) -> bool {
    p.len() <= s.len() && s.subrange(0, p.len() as int) == p
}

/// TCP connection types (host, hostssl, ...).
pub open spec fn is_host_type_spec(entry_type: Seq<char>) -> bool {
    starts_with(entry_type, "host"@)
}

impl HbaEntry {
    /// True for TCP connection types (host, hostssl, ...).
    pub fn is_host_type(&self) -> (b: bool)
        ensures
            b == is_host_type_spec(self.entry_type@),
    {
        let t = chars_of(self.entry_type.as_str());
        let p = chars_of("host");
        chars_start_with(&t, &p)
    }

    /// True when the entry matches all IPv4 hosts.
    pub fn is_ipv4_wildcard(&self) -> (b: bool)
        ensures
            b == (opt_view(self.address) == Some("0.0.0.0/0"@)),
    {
        match &self.address {
            Some(a) => chars_eq_str(&chars_of(a.as_str()), "0.0.0.0/0"),
            None => false,
        }
    }

    /// True when the entry matches all IPv6 hosts.
    pub fn is_ipv6_wildcard(&self) -> (b: bool)
        ensures
            b == (opt_view(self.address) == Some("::/0"@)),
    {
        match &self.address {
            Some(a) => chars_eq_str(&chars_of(a.as_str()), "::/0"),
            None => false,
        }
    }
}

/// All pg_hba.conf authentication methods (PostgreSQL 18).
pub open spec fn is_known_method(t: Seq<char>) -> bool {
    ||| t == "trust"@
    ||| t == "reject"@
    ||| t == "scram-sha-256"@
    ||| t == "md5"@
    ||| t == "password"@
    ||| t == "gss"@
    ||| t == "sspi"@
    ||| t == "ident"@
    ||| t == "peer"@
    ||| t == "pam"@
    ||| t == "ldap"@
    ||| t == "radius"@
    ||| t == "cert"@
    ||| t == "bsd"@
    ||| t == "oauth"@
}

/// Authentication methods considered dangerous under a deny-all posture.
pub open spec fn is_dangerous_method(t: Seq<char>) -> bool {
    ||| t == "trust"@
    ||| t == "password"@
    ||| t == "md5"@
    ||| t == "ident"@
}

pub fn known_method(t: &Vec<char>) -> (b: bool)
    ensures
        b == is_known_method(t@),
{
    chars_eq_str(t, "trust") || chars_eq_str(t, "reject") || chars_eq_str(t, "scram-sha-256")
        || chars_eq_str(t, "md5") || chars_eq_str(t, "password") || chars_eq_str(t, "gss")
        || chars_eq_str(t, "sspi") || chars_eq_str(t, "ident") || chars_eq_str(t, "peer")
        || chars_eq_str(t, "pam") || chars_eq_str(t, "ldap") || chars_eq_str(t, "radius")
        || chars_eq_str(t, "cert") || chars_eq_str(t, "bsd") || chars_eq_str(t, "oauth")
}

pub fn dangerous_method(t: &str) -> (b: bool)
    ensures
        b == is_dangerous_method(t@),
{
    let c = chars_of(t);
    chars_eq_str(&c, "trust") || chars_eq_str(&c, "password") || chars_eq_str(&c, "md5")
        || chars_eq_str(&c, "ident")
}

/// The first token from index `i` on that names an authentication method.
pub open spec fn find_method_from(t: Seq<Seq<char>>, i: int) -> Option<int>
    decreases t.len() - i,
{
    if i < 0 || i >= t.len() {
        None
    } else if is_known_method(t[i]) {
        Some(i)
    } else {
        find_method_from(t, i + 1)
    }
}

/// Find the authentication method token starting at `from`, skipping any
/// netmask token in the separate-mask address form.
pub fn find_method(parts: &Vec<Vec<char>>, from: usize) -> (r: Option<usize>)
    ensures
        r matches Some(i) ==> from <= i < parts.len(),
        match r {
            Some(i) => find_method_from(views(parts@), from as int) == Some(i as int),
            None => find_method_from(views(parts@), from as int) is None,
        },
{
    let mut i = from;
    while i < parts.len()
        invariant
            from <= i,
            find_method_from(views(parts@), from as int) == find_method_from(
                views(parts@),
                i as int,
            ),
        decreases parts.len() - i,
    {
        if known_method(&parts[i]) {
            return Some(i);
        }
        i = i + 1;
    }
    None
}

/// The address of a host entry whose method is the token at `method_idx`:
/// the separate-netmask form (`10.0.0.0 255.0.0.0`) is folded into CIDR
/// (`10.0.0.0/8`); a mask that is not contiguous leaves `ip mask`.
pub open spec fn combined_address(t: Seq<Seq<char>>, method_idx: int) -> Seq<char> {
    if method_idx == 5 {
        match (parse_ip(t[3]), parse_ip(t[4])) {
            (Some(ip), Some(mask)) => match netmask_prefix(mask) {
                Some(p) => ip_text(ip) + seq!['/'] + decimal(p),
                None => ip_text(ip) + seq![' '] + ip_text(mask),
            },
            _ => t[3],
        }
    } else {
        t[3]
    }
}

/// Build the address string, folding the separate-netmask form into CIDR.
pub fn combine_address(parts: &Vec<Vec<char>>, method_idx: usize) -> (r: Vec<char>)
    requires
        parts.len() >= 4,
        method_idx < parts.len(),
    ensures
        r@ == combined_address(views(parts@), method_idx as int),
{
    let ghost t = views(parts@);
    assert(t[3] == parts@[3]@);
    if method_idx == 5 {
        assert(t[4] == parts@[4]@);
        match (parse_ip_chars(&parts[3]), parse_ip_chars(&parts[4])) {
            (Some(ip), Some(mask)) => {
                let mut out: Vec<char> = Vec::new();
                push_ip(&mut out, ip);
                match netmask_prefix_len(mask) {
                    Some(p) => {
                        out.push('/');
                        push_decimal(&mut out, p as u64);
                    },
                    None => {
                        out.push(' ');
                        push_ip(&mut out, mask);
                    },
                }
                return out;
            },
            _ => {},
        }
    }
    copy_range(&parts[3], 0, parts[3].len())
}

/// Whether a (leading `@`-stripped) first token is an include directive.
pub open spec fn is_include_directive(d: Seq<char>) -> bool {
    d == "include"@ || d == "include_if_exists"@ || d == "include_dir"@
}

/// The entry that one line of pg_hba.conf holds, if any. Blank lines,
/// comments, lines of fewer than four tokens, include directives, unknown
/// connection types and lines without a known method hold none.
#[verifier::opaque]
pub open spec fn parse_line(source: Seq<char>, line_no: nat, line: Seq<char>) -> Option<
    HbaEntryView,
> {
    let t = tokens(line);
    if t.len() == 0 || t[0][0] == '#' || t.len() < 4 || is_include_directive(
        strip_at_signs(t[0]),
    ) {
        None
    } else if t[0] == "local"@ {
        // local DATABASE USER METHOD [OPTIONS]
        match find_method_from(t, 3) {
            Some(i) => Some(
                HbaEntryView {
                    source,
                    line: line_no,
                    entry_type: "local"@,
                    database: t[1],
                    user: t[2],
                    address: None,
                    method: t[i],
                },
            ),
            None => None,
        }
    } else if is_host_type_spec(t[0]) {
        // host DATABASE USER ADDRESS [MASK] METHOD [OPTIONS]
        match find_method_from(t, 4) {
            Some(i) => Some(
                HbaEntryView {
                    source,
                    line: line_no,
                    entry_type: t[0],
                    database: t[1],
                    user: t[2],
                    address: Some(combined_address(t, i)),
                    method: t[i],
                },
            ),
            None => None,
        }
    } else {
        None
    }
}

/// A line holds an entry exactly when its whitespace-separated tokens are at
/// least four, the first is `local` or begins with `host`, and a known
/// authentication method follows the user (local) or the address (host).
/// The entry carries the line's number, the database and user tokens, and
/// the first such method; a local entry has no address, a host entry the
/// address token (folded with a netmask token that directly follows it).
pub proof fn law_entry_of_line(source: Seq<char>, line_no: nat, line: Seq<char>)
    ensures
        ({
            let t = tokens(line);
            let first = if t.len() > 0 && t[0] == "local"@ {
                find_method_from(t, 3)
            } else {
                find_method_from(t, 4)
            };
            &&& parse_line(source, line_no, line) is Some <==> {
                &&& t.len() >= 4
                &&& t[0][0] != '#'
                &&& !is_include_directive(strip_at_signs(t[0]))
                &&& (t[0] == "local"@ || is_host_type_spec(t[0]))
                &&& first is Some
            }
            &&& parse_line(source, line_no, line) matches Some(e) ==> {
                &&& e.source == source
                &&& e.line == line_no
                &&& e.database == t[1]
                &&& e.user == t[2]
                &&& e.method == t[first->0]
                &&& is_known_method(e.method)
                &&& e.address == if t[0] == "local"@ {
                    None
                } else {
                    Some(combined_address(t, first->0))
                }
            }
        }),
{
    reveal(parse_line);
    let t = tokens(line);
    if t.len() >= 4 {
        let from: int = if t[0] == "local"@ { 3 } else { 4 };
        lemma_find_method_from(t, from);
    }
}

/// A host rule names its authentication method right after its address: a
/// line `host* DATABASE USER ADDRESS METHOD [OPTIONS]` whose method is one of
/// PostgreSQL's (trust, reject, scram-sha-256, md5, password, gss, sspi,
/// ident, peer, pam, ldap, radius, cert, bsd, oauth) holds the entry with
/// that connection type, database, user, address and method.
pub proof fn law_host_line_entry(source: Seq<char>, line_no: nat, line: Seq<char>)
    requires
        tokens(line).len() >= 5,
        tokens(line)[0].len() >= 4,
        tokens(line)[0].subrange(0, 4) == "host"@,
        ({
            let m = tokens(line)[4];
            ||| m == "trust"@
            ||| m == "reject"@
            ||| m == "scram-sha-256"@
            ||| m == "md5"@
            ||| m == "password"@
            ||| m == "gss"@
            ||| m == "sspi"@
            ||| m == "ident"@
            ||| m == "peer"@
            ||| m == "pam"@
            ||| m == "ldap"@
            ||| m == "radius"@
            ||| m == "cert"@
            ||| m == "bsd"@
            ||| m == "oauth"@
        }),
    ensures
        parse_line(source, line_no, line) == Some(
            HbaEntryView {
                source,
                line: line_no,
                entry_type: tokens(line)[0],
                database: tokens(line)[1],
                user: tokens(line)[2],
                address: Some(tokens(line)[3]),
                method: tokens(line)[4],
            },
        ),
{
    reveal(parse_line);
    reveal_strlit("host");
    reveal_strlit("local");
    reveal_strlit("include");
    reveal_strlit("include_if_exists");
    reveal_strlit("include_dir");
    let t = tokens(line);
    assert(t[0][0] == t[0].subrange(0, 4)[0]);
    assert(t[0][0] == 'h');
    assert(strip_at_signs(t[0]) == t[0]);
    assert(t[0] != "local"@ && t[0] != "include"@ && t[0] != "include_if_exists"@ && t[0]
        != "include_dir"@) by {
        assert("local"@[0] == 'l');
        assert("include"@[0] == 'i');
        assert("include_if_exists"@[0] == 'i');
        assert("include_dir"@[0] == 'i');
    }
    assert(is_host_type_spec(t[0]));
    assert(find_method_from(t, 4) == Some(4int));
}

/// A local rule names its authentication method right after its user: a
/// line `local DATABASE USER METHOD [OPTIONS]` whose method is one of
/// PostgreSQL's holds the entry with that database, user and method, and no
/// address.
pub proof fn law_local_line_entry(source: Seq<char>, line_no: nat, line: Seq<char>)
    requires
        tokens(line).len() >= 4,
        tokens(line)[0] == "local"@,
        ({
            let m = tokens(line)[3];
            ||| m == "trust"@
            ||| m == "reject"@
            ||| m == "scram-sha-256"@
            ||| m == "md5"@
            ||| m == "password"@
            ||| m == "gss"@
            ||| m == "sspi"@
            ||| m == "ident"@
            ||| m == "peer"@
            ||| m == "pam"@
            ||| m == "ldap"@
            ||| m == "radius"@
            ||| m == "cert"@
            ||| m == "bsd"@
            ||| m == "oauth"@
        }),
    ensures
        parse_line(source, line_no, line) == Some(
            HbaEntryView {
                source,
                line: line_no,
                entry_type: "local"@,
                database: tokens(line)[1],
                user: tokens(line)[2],
                address: None,
                method: tokens(line)[3],
            },
        ),
{
    reveal(parse_line);
    reveal_strlit("local");
    reveal_strlit("include");
    reveal_strlit("include_if_exists");
    reveal_strlit("include_dir");
    let t = tokens(line);
    assert(t[0][0] == 'l');
    assert(strip_at_signs(t[0]) == t[0]);
    assert(t[0] != "include"@ && t[0] != "include_if_exists"@ && t[0] != "include_dir"@) by {
        assert("include"@[0] == 'i');
        assert("include_if_exists"@[0] == 'i');
        assert("include_dir"@[0] == 'i');
    }
    assert(find_method_from(t, 3) == Some(3int));
}

/// Every parsed entry authenticates by one of PostgreSQL's methods (trust,
/// reject, scram-sha-256, md5, password, gss, sspi, ident, peer, pam, ldap,
/// radius, cert, bsd, oauth): a line naming no such method holds no entry.
pub proof fn law_entry_method_known(source: Seq<char>, line_no: nat, line: Seq<char>)
    ensures
        parse_line(source, line_no, line) matches Some(e) ==> {
            let m = e.method;
            ||| m == "trust"@
            ||| m == "reject"@
            ||| m == "scram-sha-256"@
            ||| m == "md5"@
            ||| m == "password"@
            ||| m == "gss"@
            ||| m == "sspi"@
            ||| m == "ident"@
            ||| m == "peer"@
            ||| m == "pam"@
            ||| m == "ldap"@
            ||| m == "radius"@
            ||| m == "cert"@
            ||| m == "bsd"@
            ||| m == "oauth"@
        },
{
    law_entry_of_line(source, line_no, line);
}

proof fn lemma_find_method_from(t: Seq<Seq<char>>, i: int)
    requires
        0 <= i,
    ensures
        find_method_from(t, i) matches Some(k) ==> i <= k < t.len() && is_known_method(t[k]),
    decreases t.len() - i,
{
    if i < t.len() && !is_known_method(t[i]) {
        lemma_find_method_from(t, i + 1);
    }
}

/// The entries of consecutive lines, the first of which is number `first_no`.
pub open spec fn parse_lines(source: Seq<char>, ls: Seq<Seq<char>>, first_no: nat) -> Seq<
    HbaEntryView,
>
    decreases ls.len(),
{
    if ls.len() == 0 {
        seq![]
    } else {
        let rest = parse_lines(source, ls.drop_first(), first_no + 1);
        match parse_line(source, first_no, ls[0]) {
            Some(e) => seq![e] + rest,
            None => rest,
        }
    }
}

proof fn lemma_parse_lines_cons(
    source: Seq<char>,
    line: Seq<char>,
    rest: Seq<Seq<char>>,
    no: nat,
)
    ensures
        parse_lines(source, seq![line] + rest, no) == match parse_line(source, no, line) {
            Some(e) => seq![e] + parse_lines(source, rest, no + 1),
            None => parse_lines(source, rest, no + 1),
        },
{
    assert((seq![line] + rest).drop_first() == rest);
    assert((seq![line] + rest)[0] == line);
}

/// The active entries of pg_hba.conf content, in file order, each with its
/// 1-based line number.
pub open spec fn hba_entries(source: Seq<char>, content: Seq<char>) -> Seq<HbaEntryView> {
    parse_lines(source, lines(content), 1)
}

fn include_directive(d: &Vec<char>) -> (b: bool)
    ensures
        b == is_include_directive(d@),
{
    chars_eq_str(d, "include") || chars_eq_str(d, "include_if_exists") || chars_eq_str(
        d,
        "include_dir",
    )
}

/// A `local` entry from its tokens.
fn local_entry(source: &str, line_no: usize, parts: &Vec<Vec<char>>) -> (r: Option<HbaEntry>)
    requires
        parts.len() >= 4,
    ensures
        match r {
            Some(e) => {
                let t = views(parts@);
                let i = find_method_from(t, 3).unwrap();
                &&& find_method_from(t, 3) is Some
                &&& e@ == (HbaEntryView {
                    source: source@,
                    line: line_no as nat,
                    entry_type: "local"@,
                    database: t[1],
                    user: t[2],
                    address: None,
                    method: t[i],
                })
            },
            None => find_method_from(views(parts@), 3) is None,
        },
{
    let ghost t = views(parts@);
    assert(t[1] == parts@[1]@);
    assert(t[2] == parts@[2]@);
    match find_method(parts, 3) {
        Some(i) => {
            assert(t[i as int] == parts@[i as int]@);
            Some(
                HbaEntry {
                    source: String::from_str(source),
                    line: line_no,
                    entry_type: String::from_str("local"),
                    database: vec_to_string(&parts[1]),
                    user: vec_to_string(&parts[2]),
                    address: None,
                    method: vec_to_string(&parts[i]),
                },
            )
        },
        None => None,
    }
}

/// A host-type entry from its tokens.
fn host_entry(source: &str, line_no: usize, parts: &Vec<Vec<char>>) -> (r: Option<HbaEntry>)
    requires
        parts.len() >= 4,
    ensures
        match r {
            Some(e) => {
                let t = views(parts@);
                let i = find_method_from(t, 4).unwrap();
                &&& find_method_from(t, 4) is Some
                &&& e@ == (HbaEntryView {
                    source: source@,
                    line: line_no as nat,
                    entry_type: t[0],
                    database: t[1],
                    user: t[2],
                    address: Some(combined_address(t, i)),
                    method: t[i],
                })
            },
            None => find_method_from(views(parts@), 4) is None,
        },
{
    let ghost t = views(parts@);
    assert(t[0] == parts@[0]@);
    assert(t[1] == parts@[1]@);
    assert(t[2] == parts@[2]@);
    match find_method(parts, 4) {
        Some(i) => {
            assert(t[i as int] == parts@[i as int]@);
            let address = combine_address(parts, i);
            Some(
                HbaEntry {
                    source: String::from_str(source),
                    line: line_no,
                    entry_type: vec_to_string(&parts[0]),
                    database: vec_to_string(&parts[1]),
                    user: vec_to_string(&parts[2]),
                    address: Some(vec_to_string(&address)),
                    method: vec_to_string(&parts[i]),
                },
            )
        },
        None => None,
    }
}

/// The entry on one line (already split into tokens), if any.
fn parse_line_tokens(
    source: &str,
    line_no: usize,
    parts: &Vec<Vec<char>>,
    line: Ghost<Seq<char>>,
) -> (r: Option<HbaEntry>)
    requires
        views(parts@) == tokens(line@),
    ensures
        match r {
            Some(e) => parse_line(source@, line_no as nat, line@) == Some(e@),
            None => parse_line(source@, line_no as nat, line@) is None,
        },
{
    let ghost t = views(parts@);
    proof {
        lemma_tokens_nonempty(line@, 0);
        reveal(parse_line);
    }
    if parts.len() == 0 {
        return None;
    }
    assert(t[0] == parts@[0]@);
    if parts[0][0] == '#' || parts.len() < 4 {
        return None;
    }
    let directive = strip_leading_at(&parts[0]);
    if include_directive(&directive) {
        return None;
    }
    if chars_eq_str(&parts[0], "local") {
        return local_entry(source, line_no, parts);
    }
    let host = chars_of("host");
    if chars_start_with(&parts[0], &host) {
        return host_entry(source, line_no, parts);
    }
    None
}

/// Parse the active (non-comment) entries from pg_hba.conf content.
pub fn parse_hba_content(source: &str, content: &str) -> (entries: Vec<HbaEntry>)
    ensures
        entry_views(entries@) == hba_entries(source@, content@),
{
    let c = chars_of(content);
    let n = c.len();
    let mut entries: Vec<HbaEntry> = Vec::new();
    let mut i: usize = 0;
    let mut line_idx: usize = 0;
    while i < n
        invariant
            n == c.len(),
            c@ == content@,
            i <= n,
            line_idx <= i,
            hba_entries(source@, content@) == entry_views(entries@) + parse_lines(
                source@,
                lines_from(c@, i as int),
                (line_idx + 1) as nat,
            ),
        decreases n - i,
    {
        let mut e = i;
        proof {
            lemma_line_end_bounds(c@, i as int);
        }
        while e < n && c[e] != '\n'
            invariant
                i <= e <= n,
                n == c.len(),
                line_end(c@, i as int) == line_end(c@, e as int),
            decreases n - e,
        {
            e = e + 1;
        }
        let line = copy_range(&c, i, e);
        let parts = split_tokens(&line);
        let found = parse_line_tokens(source, line_idx + 1, &parts, Ghost(line@));
        let ghost before = entry_views(entries@);
        let ghost rest = if e < n {
            lines_from(c@, e + 1)
        } else {
            seq![]
        };
        proof {
            assert(lines_from(c@, i as int) == seq![line@] + rest);
            lemma_parse_lines_cons(source@, line@, rest, (line_idx + 1) as nat);
        }
        match found {
            Some(entry) => {
                entries.push(entry);
                assert(entry_views(entries@) == before.push(entry@));
                assert(before + (seq![entry@] + parse_lines(source@, rest, (line_idx + 2) as nat))
                    == before.push(entry@) + parse_lines(source@, rest, (line_idx + 2) as nat));
            },
            None => {},
        }
        if e < n {
            i = e + 1;
        } else {
            i = n;
        }
        line_idx = line_idx + 1;
    }
    assert(lines_from(c@, i as int) == Seq::<Seq<char>>::empty());
    entries
}

// ---------------------------------------------------------------------
// Include paths (Unix path semantics)
// ---------------------------------------------------------------------
/// `p` without what ends no component: trailing `'/'`s and trailing `.`
/// components after a `'/'` (as `Path` skips them), keeping a lone root
/// `"/"` and a lone `"."`.
pub open spec fn trim_path_end(p: Seq<char>) -> Seq<char>
    decreases p.len(),
{
    if p.len() > 1 && p.last() == '/' {
        trim_path_end(p.drop_last())
    } else if p.len() >= 2 && p.last() == '.' && p[p.len() - 2] == '/' {
        trim_path_end(p.drop_last())
    } else {
        p
    }
}

/// Trimming the end of a path keeps a prefix of it, empty only for the
/// empty path.
pub proof fn lemma_trim_path_end(p: Seq<char>)
    ensures
        trim_path_end(p).len() <= p.len(),
        trim_path_end(p) == p.take(trim_path_end(p).len() as int),
        trim_path_end(p).len() == 0 <==> p.len() == 0,
    decreases p.len(),
{
    if (p.len() > 1 && p.last() == '/') || (p.len() >= 2 && p.last() == '.' && p[p.len() - 2]
        == '/') {
        lemma_trim_path_end(p.drop_last());
        let t = trim_path_end(p.drop_last());
        assert(p.drop_last().take(t.len() as int) == p.take(t.len() as int));
    } else {
        assert(p.take(p.len() as int) == p);
    }
}

/// Index of the last `'/'` in `p`.
pub open spec fn last_slash(p: Seq<char>) -> Option<int>
    decreases p.len(),
{
    if p.len() == 0 {
        None
    } else if p.last() == '/' {
        Some(p.len() - 1)
    } else {
        last_slash(p.drop_last())
    }
}

/// The directory a path names its file in (as `Path::parent`): `None` for
/// the root and the empty path, the empty path for a bare file name.
pub open spec fn path_parent(p: Seq<char>) -> Option<Seq<char>> {
    let q = trim_path_end(p);
    if q.len() == 0 || q == seq!['/'] {
        None
    } else {
        match last_slash(q) {
            None => Some(seq![]),
            Some(k) => Some(
                if k == 0 {
                    seq!['/']
                } else {
                    trim_path_end(q.take(k))
                },
            ),
        }
    }
}

/// `dir` joined with `name` (as `Path::join`): an absolute `name` replaces
/// `dir`; otherwise a `'/'` separates them unless `dir` is empty or ends in one.
pub open spec fn path_join(dir: Seq<char>, name: Seq<char>) -> Seq<char> {
    if name.len() > 0 && name[0] == '/' {
        name
    } else if dir.len() == 0 || dir.last() == '/' {
        dir + name
    } else {
        dir + seq!['/'] + name
    }
}

/// The last `'/'` of a path lies within it.
pub proof fn lemma_last_slash(p: Seq<char>)
    ensures
        last_slash(p) matches Some(k) ==> 0 <= k < p.len() && p[k] == '/',
    decreases p.len(),
{
    if p.len() > 0 && p.last() != '/' {
        lemma_last_slash(p.drop_last());
    }
}

/// The path as `PathBuf` compares it, component by component: repeated
/// and trailing `'/'`s and `.` components other than a leading one do not
/// count (`d/./x.conf`, `d//x.conf` and `d/x.conf` are one file).
pub open spec fn path_key(p: Seq<char>) -> Seq<char>
    decreases p.len(),
{
    let q = trim_path_end(p);
    match last_slash(q) {
        None => q,
        Some(k) => if k <= 0 {
            q
        } else {
            proof {
                lemma_trim_path_end(p);
                lemma_last_slash(q);
            }
            let pk = path_key(q.take(k));
            let name = q.subrange(k + 1, q.len() as int);
            if pk == seq!['/'] {
                seq!['/'] + name
            } else {
                pk + seq!['/'] + name
            }
        },
    }
}

/// The keys of a list of paths.
pub open spec fn path_keys(s: Seq<Seq<char>>) -> Seq<Seq<char>> {
    s.map_values(|v: Seq<char>| path_key(v))
}

/// Where an include target names a file: an absolute target as it is, a
/// relative one beside the including file.
pub open spec fn resolved_include(including_file: Seq<char>, target: Seq<char>) -> Seq<char> {
    if target.len() > 0 && target[0] == '/' {
        target
    } else {
        match path_parent(including_file) {
            Some(d) => path_join(d, target),
            None => path_join(seq!['.'], target),
        }
    }
}

fn trim_end_len(p: &Vec<char>, len: usize) -> (n: usize)
    requires
        len <= p.len(),
    ensures
        n <= len,
        p@.take(n as int) == trim_path_end(p@.take(len as int)),
{
    let mut n = len;
    while (n > 1 && p[n - 1] == '/') || (n >= 2 && p[n - 1] == '.' && p[n - 2] == '/')
        invariant
            n <= len <= p.len(),
            trim_path_end(p@.take(len as int)) == trim_path_end(
                p@.take(n as int),
            ),
        decreases n,
    {
        assert(p@.take(n as int).drop_last() == p@.take(n - 1));
        n = n - 1;
    }
    n
}

fn last_slash_before(p: &Vec<char>, len: usize) -> (r: Option<usize>)
    requires
        len <= p.len(),
    ensures
        match r {
            Some(k) => last_slash(p@.take(len as int)) == Some(k as int) && k < len,
            None => last_slash(p@.take(len as int)) is None,
        },
{
    let mut n = len;
    while n > 0 && p[n - 1] != '/'
        invariant
            n <= len <= p.len(),
            last_slash(p@.take(len as int)) == last_slash(p@.take(n as int)),
        decreases n,
    {
        assert(p@.take(n as int).drop_last() == p@.take(n - 1));
        n = n - 1;
    }
    if n == 0 {
        None
    } else {
        Some(n - 1)
    }
}

/// The directory part of a path, if it has one.
pub fn parent_dir(p: &Vec<char>) -> (r: Option<Vec<char>>)
    ensures
        match r {
            Some(d) => path_parent(p@) == Some(d@),
            None => path_parent(p@) is None,
        },
{
    assert(p@.take(p.len() as int) == p@);
    let qn = trim_end_len(p, p.len());
    if qn == 0 || (qn == 1 && p[0] == '/') {
        proof {
            if qn == 1 {
                assert(p@.take(1) =~= seq!['/']);
            }
        }
        return None;
    }
    proof {
        if p@.take(qn as int) == seq!['/'] {
            assert(p@.take(qn as int)[0] == p@[0]);
        }
    }
    match last_slash_before(p, qn) {
        None => Some(Vec::new()),
        Some(k) => {
            if k == 0 {
                let mut d: Vec<char> = Vec::new();
                d.push('/');
                assert(d@ =~= seq!['/']);
                Some(d)
            } else {
                assert(p@.take(qn as int).take(k as int) == p@.take(k as int));
                let m = trim_end_len(p, k);
                Some(copy_range(p, 0, m))
            }
        },
    }
}

/// The key of the path `p[..len]`.
fn path_key_of(p: &Vec<char>, len: usize) -> (r: Vec<char>)
    requires
        len <= p.len(),
    ensures
        r@ == path_key(p@.take(len as int)),
    decreases len,
{
    let qn = trim_end_len(p, len);
    let ghost q = p@.take(qn as int);
    match last_slash_before(p, qn) {
        None => copy_range(p, 0, qn),
        Some(k) => {
            if k == 0 {
                copy_range(p, 0, qn)
            } else {
                assert(q.take(k as int) == p@.take(k as int));
                let pk = path_key_of(p, k);
                let mut name = copy_range(p, k + 1, qn);
                assert(name@ == q.subrange(k + 1, q.len() as int));
                if pk.len() == 1 && pk[0] == '/' {
                    assert(pk@ =~= seq!['/']);
                    let mut r: Vec<char> = Vec::new();
                    r.push('/');
                    r.append(&mut name);
                    assert(r@ =~= seq!['/'] + q.subrange(k + 1, q.len() as int));
                    r
                } else {
                    assert(pk@ != seq!['/']);
                    let mut r = pk;
                    r.push('/');
                    r.append(&mut name);
                    r
                }
            }
        },
    }
}

/// The key of a path, as `PathBuf` compares paths.
pub fn path_key_string(p: &str) -> (r: Vec<char>)
    ensures
        r@ == path_key(p@),
{
    let v = chars_of(p);
    assert(v@.take(v.len() as int) == v@);
    path_key_of(&v, v.len())
}

/// Joins a directory and a name.
pub fn join_path(dir: &Vec<char>, name: &Vec<char>) -> (r: Vec<char>)
    ensures
        r@ == path_join(dir@, name@),
{
    if name.len() > 0 && name[0] == '/' {
        return copy_range(name, 0, name.len());
    }
    let mut r = copy_range(dir, 0, dir.len());
    if !(dir.len() == 0 || dir[dir.len() - 1] == '/') {
        r.push('/');
    }
    let mut n = copy_range(name, 0, name.len());
    r.append(&mut n);
    r
}

/// Where an include target names a file: an absolute target as it is, a
/// relative one beside the including file.
pub fn resolve_include(including_file: &Vec<char>, target: &Vec<char>) -> (r: Vec<char>)
    ensures
        r@ == resolved_include(including_file@, target@),
{
    if target.len() > 0 && target[0] == '/' {
        return copy_range(target, 0, target.len());
    }
    match parent_dir(including_file) {
        Some(d) => join_path(&d, target),
        None => {
            let mut dot: Vec<char> = Vec::new();
            dot.push('.');
            assert(dot@ =~= seq!['.']);
            join_path(&dot, target)
        },
    }
}

// ---------------------------------------------------------------------
// Include expansion
// ---------------------------------------------------------------------
/// Maximum depth for nested include directives.
pub const MAX_INCLUDE_DEPTH: u8 = 3;

/// A unit of loading work.
pub enum LoadTask {
    /// Read and parse a file reached at the given include depth.
    File { path: String, depth: u8 },
    /// An `include` (required) or `include_if_exists` target, whose file is
    /// read at the given depth if it exists.
    Included { path: String, depth: u8, required: bool },
    /// An `include_dir` directory, whose `.conf` files are read at one
    /// level below the given depth.
    Dir { path: String, depth: u8 },
    /// An entry of a file that was read, which takes its place among the
    /// entries once every task before it is done.
    Entry { entry: HbaEntry },
}

/// A loading task as plain values.
pub enum TaskView {
    File(Seq<char>, nat),
    Included(Seq<char>, nat, bool),
    Dir(Seq<char>, nat),
    Entry(HbaEntryView),
}

impl View for LoadTask {
    type V = TaskView;

    open spec fn view(&self) -> TaskView {
        match self {
            LoadTask::File { path, depth } => TaskView::File(path@, *depth as nat),
            LoadTask::Included { path, depth, required } => TaskView::Included(
                path@,
                *depth as nat,
                *required,
            ),
            LoadTask::Dir { path, depth } => TaskView::Dir(path@, *depth as nat),
            LoadTask::Entry { entry } => TaskView::Entry(entry@),
        }
    }
}

pub open spec fn task_views(v: Seq<LoadTask>) -> Seq<TaskView> {
    v.map_values(|t: LoadTask| t@)
}

/// What the loader needs done next.
pub enum LoadRequest {
    /// Read the file to a string and hand it to `file_read`.
    ReadFile(String),
    /// Test whether the path exists and hand the answer to `existence`.
    CheckExists(String),
    /// List the file names in the directory and hand them to `dir_listed`.
    ListDir(String),
}

pub enum RequestView {
    ReadFile(Seq<char>),
    CheckExists(Seq<char>),
    ListDir(Seq<char>),
}

impl View for LoadRequest {
    type V = RequestView;

    open spec fn view(&self) -> RequestView {
        match self {
            LoadRequest::ReadFile(p) => RequestView::ReadFile(p@),
            LoadRequest::CheckExists(p) => RequestView::CheckExists(p@),
            LoadRequest::ListDir(p) => RequestView::ListDir(p@),
        }
    }
}

/// The request that a task makes.
pub open spec fn request_for(t: TaskView) -> Option<RequestView> {
    match t {
        TaskView::File(p, _) => Some(RequestView::ReadFile(p)),
        TaskView::Included(p, _, _) => Some(RequestView::CheckExists(p)),
        TaskView::Dir(p, _) => Some(RequestView::ListDir(p)),
        TaskView::Entry(_) => None,
    }
}

/// The loading task that an include directive on one line asks for: `include`
/// and `include_if_exists` name a file one level deeper, `include_dir` a
/// directory; the target is resolved beside `file`.
pub open spec fn include_task(file: Seq<char>, depth: nat, line: Seq<char>) -> Option<TaskView> {
    let t = tokens(line);
    if t.len() < 2 || t[0][0] == '#' {
        None
    } else {
        let d = strip_at_signs(t[0]);
        let target = resolved_include(file, t[1]);
        if d == "include"@ {
            Some(TaskView::Included(target, depth + 1, true))
        } else if d == "include_if_exists"@ {
            Some(TaskView::Included(target, depth + 1, false))
        } else if d == "include_dir"@ {
            Some(TaskView::Dir(target, depth))
        } else {
            None
        }
    }
}

/// The tasks of consecutive lines of `file`, the first of which is number
/// `first_no`, in line order: an entry for each line that holds one, the
/// include task of each include directive.
pub open spec fn file_tasks_of_lines(
    file: Seq<char>,
    depth: nat,
    ls: Seq<Seq<char>>,
    first_no: nat,
) -> Seq<TaskView>
    decreases ls.len(),
{
    if ls.len() == 0 {
        seq![]
    } else {
        let rest = file_tasks_of_lines(file, depth, ls.drop_first(), first_no + 1);
        match parse_line(file, first_no, ls[0]) {
            Some(e) => seq![TaskView::Entry(e)] + rest,
            None => match include_task(file, depth, ls[0]) {
                Some(t) => seq![t] + rest,
                None => rest,
            },
        }
    }
}

/// The entries among a list of tasks, in order.
pub open spec fn task_entries(ts: Seq<TaskView>) -> Seq<HbaEntryView>
    decreases ts.len(),
{
    if ts.len() == 0 {
        seq![]
    } else {
        match ts[0] {
            TaskView::Entry(e) => seq![e] + task_entries(ts.drop_first()),
            _ => task_entries(ts.drop_first()),
        }
    }
}

proof fn lemma_task_entries_lines(file: Seq<char>, depth: nat, ls: Seq<Seq<char>>, no: nat)
    ensures
        task_entries(file_tasks_of_lines(file, depth, ls, no)) == parse_lines(file, ls, no),
    decreases ls.len(),
{
    if ls.len() > 0 {
        lemma_task_entries_lines(file, depth, ls.drop_first(), no + 1);
        let rest = file_tasks_of_lines(file, depth, ls.drop_first(), no + 1);
        match parse_line(file, no, ls[0]) {
            Some(e) => {
                assert((seq![TaskView::Entry(e)] + rest).drop_first() == rest);
            },
            None => match include_task(file, depth, ls[0]) {
                Some(t) => {
                    assert((seq![t] + rest).drop_first() == rest);
                    assert(!(t is Entry));
                },
                None => {},
            },
        }
    }
}

/// Reading a file adds exactly the entries that parsing it gives, in file
/// order, with the include directives' tasks between them where the
/// directives stand.
pub proof fn law_file_tasks_entries(file: Seq<char>, depth: nat, content: Seq<char>)
    ensures
        task_entries(file_tasks(file, depth, content)) == hba_entries(file, content),
{
    lemma_task_entries_lines(file, depth, lines(content), 1);
}

proof fn lemma_file_tasks_depth(file: Seq<char>, depth: nat, ls: Seq<Seq<char>>, first_no: nat)
    requires
        depth <= MAX_INCLUDE_DEPTH,
    ensures
        forall|i: int|
            0 <= i < file_tasks_of_lines(file, depth, ls, first_no).len() ==> task_depth_ok(
                #[trigger] file_tasks_of_lines(file, depth, ls, first_no)[i],
            ),
    decreases ls.len(),
{
    if ls.len() > 0 {
        lemma_file_tasks_depth(file, depth, ls.drop_first(), first_no + 1);
        let rest = file_tasks_of_lines(file, depth, ls.drop_first(), first_no + 1);
        let all = file_tasks_of_lines(file, depth, ls, first_no);
        assert forall|i: int| 0 <= i < all.len() implies task_depth_ok(#[trigger] all[i]) by {
            if all.len() > rest.len() && i > 0 {
                assert(all[i] == rest[i - 1]);
            } else if all.len() == rest.len() {
                assert(all == rest);
            }
        }
    }
}

/// What reading `file` adds to the loading work, in file order: its entries,
/// each with its line number, and the tasks of its include directives where
/// the directives stand, so that an included file's entries take the place
/// of the directive that includes it.
pub open spec fn file_tasks(file: Seq<char>, depth: nat, content: Seq<char>) -> Seq<TaskView> {
    file_tasks_of_lines(file, depth, lines(content), 1)
}

fn line_include_task(file: &Vec<char>, depth: u8, parts: &Vec<Vec<char>>, line: Ghost<Seq<char>>) -> (r: Option<LoadTask>)
    requires
        views(parts@) == tokens(line@),
        depth < 255,
    ensures
        match r {
            Some(t) => include_task(file@, depth as nat, line@) == Some(t@),
            None => include_task(file@, depth as nat, line@) is None,
        },
{
    let ghost t = views(parts@);
    proof {
        lemma_tokens_nonempty(line@, 0);
    }
    if parts.len() < 2 {
        return None;
    }
    assert(t[0] == parts@[0]@);
    assert(t[1] == parts@[1]@);
    if parts[0][0] == '#' {
        return None;
    }
    let d = strip_leading_at(&parts[0]);
    if chars_eq_str(&d, "include") {
        let target = resolve_include(file, &parts[1]);
        Some(LoadTask::Included { path: vec_to_string(&target), depth: depth + 1, required: true })
    } else if chars_eq_str(&d, "include_if_exists") {
        let target = resolve_include(file, &parts[1]);
        Some(LoadTask::Included { path: vec_to_string(&target), depth: depth + 1, required: false })
    } else if chars_eq_str(&d, "include_dir") {
        let target = resolve_include(file, &parts[1]);
        Some(LoadTask::Dir { path: vec_to_string(&target), depth })
    } else {
        None
    }
}

proof fn lemma_file_tasks_cons(
    file: Seq<char>,
    depth: nat,
    line: Seq<char>,
    rest: Seq<Seq<char>>,
    no: nat,
)
    ensures
        file_tasks_of_lines(file, depth, seq![line] + rest, no) == match parse_line(file, no, line) {
            Some(e) => seq![TaskView::Entry(e)] + file_tasks_of_lines(file, depth, rest, no + 1),
            None => match include_task(file, depth, line) {
                Some(t) => seq![t] + file_tasks_of_lines(file, depth, rest, no + 1),
                None => file_tasks_of_lines(file, depth, rest, no + 1),
            },
        },
{
    assert((seq![line] + rest).drop_first() == rest);
    assert((seq![line] + rest)[0] == line);
}

/// The loading tasks that reading `content` as `file` adds.
pub fn collect_file_tasks(file: &str, depth: u8, content: &str) -> (tasks: Vec<LoadTask>)
    requires
        depth < 255,
    ensures
        task_views(tasks@) == file_tasks(file@, depth as nat, content@),
{
    let f = chars_of(file);
    let c = chars_of(content);
    let n = c.len();
    let mut tasks: Vec<LoadTask> = Vec::new();
    let mut i: usize = 0;
    let mut line_idx: usize = 0;
    while i < n
        invariant
            n == c.len(),
            c@ == content@,
            f@ == file@,
            i <= n,
            line_idx <= i,
            depth < 255,
            file_tasks(file@, depth as nat, content@) == task_views(tasks@) + file_tasks_of_lines(
                file@,
                depth as nat,
                lines_from(c@, i as int),
                (line_idx + 1) as nat,
            ),
        decreases n - i,
    {
        let mut e = i;
        proof {
            lemma_line_end_bounds(c@, i as int);
        }
        while e < n && c[e] != '\n'
            invariant
                i <= e <= n,
                n == c.len(),
                line_end(c@, i as int) == line_end(c@, e as int),
            decreases n - e,
        {
            e = e + 1;
        }
        let line = copy_range(&c, i, e);
        let parts = split_tokens(&line);
        let ghost before = task_views(tasks@);
        let ghost rest = if e < n {
            lines_from(c@, e + 1)
        } else {
            seq![]
        };
        let ghost later = file_tasks_of_lines(file@, depth as nat, rest, (line_idx + 2) as nat);
        proof {
            assert(lines_from(c@, i as int) == seq![line@] + rest);
            lemma_file_tasks_cons(file@, depth as nat, line@, rest, (line_idx + 1) as nat);
        }
        match parse_line_tokens(file, line_idx + 1, &parts, Ghost(line@)) {
            Some(entry) => {
                let t = LoadTask::Entry { entry };
                let ghost tv = t@;
                tasks.push(t);
                assert(task_views(tasks@) == before.push(tv));
                assert(before + (seq![tv] + later) == before.push(tv) + later);
            },
            None => match line_include_task(&f, depth, &parts, Ghost(line@)) {
                Some(t) => {
                    let ghost tv = t@;
                    tasks.push(t);
                    assert(task_views(tasks@) == before.push(tv));
                    assert(before + (seq![tv] + later) == before.push(tv) + later);
                },
                None => {},
            },
        }
        if e < n {
            i = e + 1;
        } else {
            i = n;
        }
        line_idx = line_idx + 1;
    }
    assert(lines_from(c@, i as int) == Seq::<Seq<char>>::empty());
    tasks
}

/// Character-wise (code point) order of names, as `include_dir` files are
/// processed: C-locale alphabetical order.
pub open spec fn name_le_from(a: Seq<char>, b: Seq<char>, i: int) -> bool
    decreases a.len() - i,
{
    if i < 0 || i >= a.len() {
        true
    } else if i >= b.len() {
        false
    } else if (a[i] as u32) != (b[i] as u32) {
        (a[i] as u32) < (b[i] as u32)
    } else {
        name_le_from(a, b, i + 1)
    }
}

pub open spec fn name_le(a: Seq<char>, b: Seq<char>) -> bool {
    name_le_from(a, b, 0)
}

pub open spec fn names_sorted(s: Seq<Seq<char>>) -> bool {
    forall|i: int| 0 <= i < s.len() - 1 ==> name_le(#[trigger] s[i], s[i + 1])
}

proof fn lemma_name_le_total(a: Seq<char>, b: Seq<char>, i: int)
    requires
        0 <= i,
        !name_le_from(a, b, i),
    ensures
        name_le_from(b, a, i),
    decreases a.len() - i,
{
    if i < a.len() && i < b.len() && (a[i] as u32) == (b[i] as u32) {
        lemma_name_le_total(a, b, i + 1);
    }
}

proof fn lemma_name_le_common(a: Seq<char>, b: Seq<char>, j: int, k: int)
    requires
        0 <= j <= k,
        k <= a.len(),
        k <= b.len(),
        a.take(k) == b.take(k),
    ensures
        name_le_from(a, b, j) == name_le_from(a, b, k),
    decreases k - j,
{
    if j < k {
        assert(a.take(k)[j] == a[j] && b.take(k)[j] == b[j]);
        lemma_name_le_common(a, b, j + 1, k);
    }
}

/// File names are ordered as C-locale strings: at the first position where
/// two names differ, the name with the smaller character (by code point)
/// comes first, whatever their lengths.
pub proof fn law_name_order(a: Seq<char>, b: Seq<char>, k: int)
    requires
        0 <= k < a.len(),
        k < b.len(),
        a.take(k) == b.take(k),
        (a[k] as u32) != (b[k] as u32),
    ensures
        name_le(a, b) <==> (a[k] as u32) < (b[k] as u32),
        name_le(b, a) <==> (b[k] as u32) < (a[k] as u32),
{
    lemma_name_le_common(a, b, 0, k);
    lemma_name_le_common(b, a, 0, k);
}

/// A file name comes before every longer name that begins with it.
pub proof fn law_name_prefix(a: Seq<char>, b: Seq<char>)
    requires
        a.len() <= b.len(),
        b.take(a.len() as int) == a,
    ensures
        name_le(a, b),
{
    assert(a.take(a.len() as int) == a);
    lemma_name_le_common(a, b, 0, a.len() as int);
}

fn name_le_exec(a: &Vec<char>, b: &Vec<char>) -> (r: bool)
    ensures
        r == name_le(a@, b@),
{
    let mut i: usize = 0;
    while i < a.len()
        invariant
            i <= a.len(),
            name_le(a@, b@) == name_le_from(a@, b@, i as int),
        decreases a.len() - i,
    {
        if i >= b.len() {
            return false;
        }
        if (a[i] as u32) != (b[i] as u32) {
            return (a[i] as u32) < (b[i] as u32);
        }
        i = i + 1;
    }
    true
}

/// Sorts names by `name_le`.
fn sort_names(v: Vec<Vec<char>>) -> (r: Vec<Vec<char>>)
    ensures
        views(r@).to_multiset() == views(v@).to_multiset(),
        names_sorted(views(r@)),
{
    broadcast use vstd::seq_lib::group_to_multiset_ensures;

    let mut r: Vec<Vec<char>> = Vec::new();
    let mut k: usize = 0;
    let n = v.len();
    let mut v = v;
    let ghost orig = views(v@);
    assert(views(r@) =~= seq![]);
    while k < n
        invariant
            n == v.len(),
            k <= n,
            orig == views(v@),
            views(r@).to_multiset() == orig.take(k as int).to_multiset(),
            names_sorted(views(r@)),
        decreases n - k,
    {
        let x = copy_range(&v[k], 0, v[k].len());
        let mut j = r.len();
        while j > 0 && !name_le_exec(&r[j - 1], &x)
            invariant
                j <= r.len(),
                j < r.len() ==> !name_le(r@[j as int]@, x@),
            decreases j,
        {
            j = j - 1;
        }
        let ghost before = views(r@);
        proof {
            if j < r.len() {
                lemma_name_le_total(r@[j as int]@, x@, 0);
            }
        }
        let ghost xv = x@;
        r.insert(j, x);
        proof {
            assert(views(r@) =~= before.insert(j as int, xv));
            vstd::seq_lib::to_multiset_insert(before, j as int, xv);
            assert(orig.take(k + 1) == orig.take(k as int).push(orig[k as int]));
            assert(orig[k as int] == xv);
            vstd::seq_lib::to_multiset_build(orig.take(k as int), xv);
            let s = views(r@);
            assert forall|i: int| 0 <= i < s.len() - 1 implies name_le(#[trigger] s[i], s[i + 1]) by {
                if i < j - 1 {
                    assert(s[i] == before[i] && s[i + 1] == before[i + 1]);
                } else if i == j - 1 {
                    assert(s[i] == before[i] && s[i + 1] == xv);
                } else if i == j {
                    assert(s[i] == xv && s[i + 1] == before[i]);
                } else {
                    assert(s[i] == before[i - 1] && s[i + 1] == before[i]);
                }
            }
        }
        k = k + 1;
    }
    assert(orig.take(n as int) == orig);
    r
}

/// Whether a file name has the extension `conf` (as `Path::extension`: a
/// `.conf` suffix after a non-empty stem).
pub open spec fn has_conf_extension(name: Seq<char>) -> bool {
    name.len() > 5 && name.subrange(name.len() - 5, name.len() as int) == ".conf"@
}

/// The names with the `conf` extension, in their order.
pub open spec fn conf_names(names: Seq<Seq<char>>) -> Seq<Seq<char>>
    decreases names.len(),
{
    if names.len() == 0 {
        seq![]
    } else {
        let r = conf_names(names.drop_last());
        if has_conf_extension(names.last()) {
            r.push(names.last())
        } else {
            r
        }
    }
}

fn conf_extension(name: &Vec<char>) -> (b: bool)
    ensures
        b == has_conf_extension(name@),
{
    if name.len() <= 5 {
        return false;
    }
    let tail = copy_range(name, name.len() - 5, name.len());
    chars_eq_str(&tail, ".conf")
}

fn select_conf_names(names: &Vec<String>) -> (r: Vec<Vec<char>>)
    ensures
        views(r@) == conf_names(string_seq_views(names@)),
{
    let mut r: Vec<Vec<char>> = Vec::new();
    let mut k: usize = 0;
    while k < names.len()
        invariant
            k <= names.len(),
            views(r@) == conf_names(string_seq_views(names@).take(k as int)),
        decreases names.len() - k,
    {
        proof {
            assert(string_seq_views(names@).take(k + 1).drop_last() == string_seq_views(
                names@,
            ).take(k as int));
        }
        let c = chars_of(names[k].as_str());
        if conf_extension(&c) {
            let ghost before = views(r@);
            let ghost cv = c@;
            r.push(c);
            assert(views(r@) == before.push(cv));
        }
        k = k + 1;
    }
    assert(string_seq_views(names@).take(names.len() as int) == string_seq_views(names@));
    r
}

pub open spec fn string_seq_views(v: Seq<String>) -> Seq<Seq<char>> {
    v.map_values(|s: String| s@)
}

/// The file tasks for sorted names in a directory.
pub open spec fn dir_file_tasks(dir: Seq<char>, names: Seq<Seq<char>>, depth: nat) -> Seq<TaskView> {
    names.map_values(|n: Seq<char>| TaskView::File(path_join(dir, n), depth + 1))
}

/// The state of include expansion: tasks still to do (the next first; a
/// read file's entries wait among them in file order, with the tasks of its
/// include directives where the directives stand), the task whose request is
/// outstanding, the files read so far, and what has been collected.
pub struct LoaderView {
    pub pending: Seq<TaskView>,
    pub current: Option<TaskView>,
    pub visited: Seq<Seq<char>>,
    pub entries: Seq<HbaEntryView>,
    pub warnings: Seq<Seq<char>>,
}

/// Loads pg_hba.conf entries, expanding include directives, one outside
/// operation at a time: the caller performs each request that
/// `next_request` makes and hands back its outcome.
pub struct HbaLoader {
    pending: Vec<LoadTask>,
    current: Option<LoadTask>,
    visited: Vec<String>,
    entries: Vec<HbaEntry>,
    warnings: Vec<String>,
}

pub open spec fn opt_task_view(t: Option<LoadTask>) -> Option<TaskView> {
    match t {
        Some(x) => Some(x@),
        None => None,
    }
}

impl View for HbaLoader {
    type V = LoaderView;

    closed spec fn view(&self) -> LoaderView {
        LoaderView {
            pending: task_views(self.pending@),
            current: opt_task_view(self.current),
            visited: string_seq_views(self.visited@),
            entries: entry_views(self.entries@),
            warnings: string_seq_views(self.warnings@),
        }
    }
}

/// Task depths stay within one level below the include limit.
pub open spec fn task_depth_ok(t: TaskView) -> bool {
    match t {
        TaskView::File(_, d) => d <= MAX_INCLUDE_DEPTH + 1,
        TaskView::Included(_, d, _) => d <= MAX_INCLUDE_DEPTH + 1,
        TaskView::Dir(_, d) => d <= MAX_INCLUDE_DEPTH,
        TaskView::Entry(_) => true,
    }
}

/// The next task that needs an outside operation: entries ahead of it are
/// collected, tasks for files nested too deep are dropped with a warning,
/// files already read are skipped. Gives the remaining tasks, that task, the
/// files read, the entries and the warnings.
pub open spec fn advance(
    pending: Seq<TaskView>,
    visited: Seq<Seq<char>>,
    entries: Seq<HbaEntryView>,
    warnings: Seq<Seq<char>>,
) -> (Seq<TaskView>, Option<TaskView>, Seq<Seq<char>>, Seq<HbaEntryView>, Seq<Seq<char>>)
    decreases pending.len(),
{
    if pending.len() == 0 {
        (pending, None, visited, entries, warnings)
    } else {
        let t = pending[0];
        let rest = pending.drop_first();
        match t {
            TaskView::Entry(e) => advance(rest, visited, entries.push(e), warnings),
            TaskView::File(p, d) => if d > MAX_INCLUDE_DEPTH {
                advance(rest, visited, entries, warnings.push(p + ": include depth exceeded"@))
            } else if path_keys(visited).contains(path_key(p)) {
                advance(rest, visited, entries, warnings)
            } else {
                (rest, Some(t), visited.push(p), entries, warnings)
            },
            _ => (rest, Some(t), visited, entries, warnings),
        }
    }
}

impl HbaLoader {
    /// Task depths stay bounded and no request is outstanding between calls
    /// of `next_request` and the matching answer.
    pub closed spec fn wf(&self) -> bool {
        &&& path_keys(string_seq_views(self.visited@)).no_duplicates()
        &&& forall|i: int| 0 <= i < self.pending.len() ==> task_depth_ok(#[trigger] self.pending@[i]@)
        &&& match self.current {
            Some(t) => task_depth_ok(t@) && match t@ {
                TaskView::File(_, d) => d <= MAX_INCLUDE_DEPTH,
                _ => true,
            },
            None => true,
        }
    }

    /// No file is read twice: the files requested for reading are all
    /// different as paths (whatever `.` components or repeated `'/'`s they
    /// are written with), so include cycles end.
    pub proof fn law_files_read_once(&self)
        requires
            self.wf(),
        ensures
            path_keys(self@.visited).no_duplicates(),
    {
    }

    /// A loader for the file at `path`.
    pub fn new(path: &str) -> (l: Self)
        ensures
            l.wf(),
            l@ == (LoaderView {
                pending: seq![TaskView::File(path@, 0)],
                current: None,
                visited: seq![],
                entries: seq![],
                warnings: seq![],
            }),
    {
        let mut pending: Vec<LoadTask> = Vec::new();
        pending.push(LoadTask::File { path: String::from_str(path), depth: 0 });
        let l = HbaLoader {
            pending,
            current: None,
            visited: Vec::new(),
            entries: Vec::new(),
            warnings: Vec::new(),
        };
        assert(l@.pending =~= seq![TaskView::File(path@, 0)]);
        assert(l@.visited =~= seq![]);
        assert(l@.entries =~= seq![]);
        assert(l@.warnings =~= seq![]);
        l
    }

    fn is_visited(&self, p: &String) -> (b: bool)
        ensures
            b == path_keys(string_seq_views(self.visited@)).contains(path_key(p@)),
    {
        let ghost keys = path_keys(string_seq_views(self.visited@));
        let key = path_key_string(p.as_str());
        let mut i: usize = 0;
        while i < self.visited.len()
            invariant
                i <= self.visited.len(),
                keys == path_keys(string_seq_views(self.visited@)),
                key@ == path_key(p@),
                forall|k: int| 0 <= k < i ==> keys[k] != key@,
            decreases self.visited.len() - i,
        {
            let other = path_key_string(self.visited[i].as_str());
            assert(keys[i as int] == path_key(self.visited@[i as int]@));
            if chars_eq(&other, &key) {
                return true;
            }
            i = i + 1;
        }
        proof {
            if keys.contains(key@) {
                let k = choose|k: int| 0 <= k < keys.len() && keys[k] == key@;
                assert(keys[k] != key@);
            }
        }
        false
    }

    /// The next outside operation that loading needs, or `None` when loading
    /// is complete. A file is requested for reading at most once and never
    /// deeper than `MAX_INCLUDE_DEPTH` levels of inclusion.
    pub fn next_request(&mut self) -> (r: Option<LoadRequest>)
        requires
            old(self).wf(),
            old(self)@.current is None,
        ensures
            final(self).wf(),
            ({
                let (pending, current, visited, entries, warnings) = advance(
                    old(self)@.pending,
                    old(self)@.visited,
                    old(self)@.entries,
                    old(self)@.warnings,
                );
                &&& final(self)@.pending == pending
                &&& final(self)@.current == current
                &&& final(self)@.visited == visited
                &&& final(self)@.entries == entries
                &&& final(self)@.warnings == warnings
            }),
            match r {
                Some(req) => final(self)@.current matches Some(t) && request_for(t) == Some(req@),
                None => final(self)@.current is None && final(self)@.pending.len() == 0,
            },
            r matches Some(LoadRequest::ReadFile(p)) ==> {
                &&& !path_keys(old(self)@.visited).contains(path_key(p@))
                &&& final(self)@.visited == old(self)@.visited.push(p@)
                &&& final(self)@.current matches Some(TaskView::File(_, d)) && d
                    <= MAX_INCLUDE_DEPTH
            },
    {
        loop
            invariant
                self.wf(),
                self.current is None,
                advance(
                    old(self)@.pending,
                    old(self)@.visited,
                    old(self)@.entries,
                    old(self)@.warnings,
                ) == advance(self@.pending, self@.visited, self@.entries, self@.warnings),
                self@.visited == string_seq_views(old(self).visited@),
            decreases self.pending.len(),
        {
            if self.pending.len() == 0 {
                return None;
            }
            let ghost pv = self@.pending;
            let ghost ww = self@.warnings;
            let ghost ev = self@.entries;
            let t = self.pending.remove(0);
            proof {
                assert(task_views(self.pending@) == pv.drop_first());
                assert(pv[0] == t@);
            }
            match t {
                LoadTask::Entry { entry } => {
                    let ghost e = entry@;
                    self.entries.push(entry);
                    assert(self@.entries == ev.push(e));
                },
                LoadTask::File { path, depth } => {
                    if depth > MAX_INCLUDE_DEPTH {
                        let mut m: Vec<char> = Vec::new();
                        push_str(&mut m, path.as_str());
                        push_str(&mut m, ": include depth exceeded");
                        let w = vec_to_string(&m);
                        self.warnings.push(w);
                        assert(self@.warnings == ww.push(path@ + ": include depth exceeded"@));
                    } else if self.is_visited(&path) {
                    } else {
                        let req = path.clone();
                        let ghost before = self@.visited;
                        let ghost bk = path_keys(before);
                        self.visited.push(path.clone());
                        self.current = Some(LoadTask::File { path, depth });
                        assert(self@.visited == string_seq_views(old(self).visited@).push(req@));
                        proof {
                            assert(self@.visited == before.push(req@));
                            let nk = path_keys(self@.visited);
                            assert(nk =~= bk.push(path_key(req@)));
                            assert forall|i: int, j: int|
                                0 <= i < nk.len() && 0 <= j < nk.len() && i != j implies nk[i]
                                != nk[j] by {
                                if i < bk.len() && j < bk.len() {
                                    assert(nk[i] == bk[i] && nk[j] == bk[j]);
                                } else if i < bk.len() {
                                    assert(nk[i] == bk[i]);
                                    assert(bk.contains(nk[i]));
                                } else {
                                    assert(nk[j] == bk[j]);
                                    assert(bk.contains(nk[j]));
                                }
                            }
                        }
                        return Some(LoadRequest::ReadFile(req));
                    }
                },
                LoadTask::Included { path, depth, required } => {
                    let req = path.clone();
                    self.current = Some(LoadTask::Included { path, depth, required });
                    return Some(LoadRequest::CheckExists(req));
                },
                LoadTask::Dir { path, depth } => {
                    let req = path.clone();
                    self.current = Some(LoadTask::Dir { path, depth });
                    return Some(LoadRequest::ListDir(req));
                },
            }
        }
    }

    /// Hands back the outcome of a `ReadFile` request: the file's text, or
    /// the message of the error that reading it gave. A read file's entries
    /// and the tasks of its include directives go, in file order, before all
    /// other pending tasks; `next_request` collects each entry when it reaches
    /// it, so an included file's entries take the place of its directive. A failed read of the main file (depth 0)
    /// is an error that ends loading, so that a configuration never read is
    /// never judged; a failed read of an included file adds a warning.
    pub fn file_read(&mut self, outcome: Result<String, String>) -> (r: Result<(), CheckError>)
        requires
            old(self).wf(),
            old(self)@.current matches Some(TaskView::File(_, _)),
        ensures
            final(self).wf(),
            final(self)@.current is None,
            final(self)@.visited == old(self)@.visited,
            old(self)@.current matches Some(TaskView::File(p, d)) && match outcome {
                Ok(content) => {
                    &&& r is Ok
                    &&& final(self)@.pending == file_tasks(p, d, content@) + old(self)@.pending
                    &&& final(self)@.entries == old(self)@.entries
                    &&& final(self)@.warnings == old(self)@.warnings
                },
                Err(msg) => {
                    &&& final(self)@.pending == old(self)@.pending
                    &&& final(self)@.entries == old(self)@.entries
                    &&& if d == 0 {
                        &&& r matches Err(CheckError::FileRead(m)) && m@ == p + ": "@ + msg@
                        &&& final(self)@.warnings == old(self)@.warnings
                    } else {
                        &&& r is Ok
                        &&& final(self)@.warnings == old(self)@.warnings.push(p + ": "@ + msg@)
                    }
                },
            },
    {
        let task = self.current.take();
        let (path, depth) = match task {
            Some(LoadTask::File { path, depth }) => (path, depth),
            _ => {
                return Ok(());
            },
        };
        match outcome {
            Ok(content) => {
                let mut tasks = collect_file_tasks(path.as_str(), depth, content.as_str());
                proof {
                    lemma_file_tasks_depth(path@, depth as nat, lines(content@), 1);
                }
                let mut rest: Vec<LoadTask> = Vec::new();
                std::mem::swap(&mut rest, &mut self.pending);
                let ghost tv = task_views(tasks@);
                let ghost rv = task_views(rest@);
                tasks.append(&mut rest);
                assert(task_views(tasks@) == tv + rv);
                self.pending = tasks;
                proof {
                    assert forall|i: int| 0 <= i < self.pending.len() implies task_depth_ok(
                        #[trigger] self.pending@[i]@,
                    ) by {
                        assert(self.pending@[i]@ == (tv + rv)[i]);
                    }
                }
            },
            Err(msg) => {
                let mut m: Vec<char> = Vec::new();
                push_str(&mut m, path.as_str());
                push_str(&mut m, ": ");
                push_str(&mut m, msg.as_str());
                if depth == 0 {
                    return Err(CheckError::FileRead(vec_to_string(&m)));
                }
                let ghost ww = self@.warnings;
                self.warnings.push(vec_to_string(&m));
                assert(self@.warnings == ww.push(path@ + ": "@ + msg@));
            },
        }
        Ok(())
    }

    /// Hands back the outcome of a `CheckExists` request. An existing target
    /// is read next; a missing `include` target (not `include_if_exists`) adds
    /// a warning.
    pub fn existence(&mut self, present: bool)
        requires
            old(self).wf(),
            old(self)@.current matches Some(TaskView::Included(_, _, _)),
        ensures
            final(self).wf(),
            final(self)@.current is None,
            final(self)@.visited == old(self)@.visited,
            final(self)@.entries == old(self)@.entries,
            old(self)@.current matches Some(TaskView::Included(p, d, required)) && if present {
                &&& final(self)@.pending == seq![TaskView::File(p, d)] + old(self)@.pending
                &&& final(self)@.warnings == old(self)@.warnings
            } else {
                &&& final(self)@.pending == old(self)@.pending
                &&& final(self)@.warnings == if required {
                    old(self)@.warnings.push(p + ": include target not found"@)
                } else {
                    old(self)@.warnings
                }
            },
    {
        let task = self.current.take();
        let (path, depth, required) = match task {
            Some(LoadTask::Included { path, depth, required }) => (path, depth, required),
            _ => {
                return ;
            },
        };
        if present {
            let ghost pv = self@.pending;
            self.pending.insert(0, LoadTask::File { path, depth });
            assert(self@.pending =~= seq![TaskView::File(path@, depth as nat)] + pv);
            proof {
                assert forall|i: int| 0 <= i < self.pending.len() implies task_depth_ok(
                    #[trigger] self.pending@[i]@,
                ) by {
                    if i > 0 {
                        assert(self.pending@[i]@ == pv[i - 1]);
                    }
                }
            }
        } else if required {
            let mut m: Vec<char> = Vec::new();
            push_str(&mut m, path.as_str());
            push_str(&mut m, ": include target not found");
            let ghost ww = self@.warnings;
            self.warnings.push(vec_to_string(&m));
            assert(self@.warnings == ww.push(path@ + ": include target not found"@));
        }
    }

    /// Hands back the outcome of a `ListDir` request: the names of the
    /// directory's entries, or the message of the error that listing gave.
    /// The `.conf` files, in name order, are read next; a failed listing
    /// adds a warning.
    pub fn dir_listed(&mut self, outcome: Result<Vec<String>, String>)
        requires
            old(self).wf(),
            old(self)@.current matches Some(TaskView::Dir(_, _)),
        ensures
            final(self).wf(),
            final(self)@.current is None,
            final(self)@.visited == old(self)@.visited,
            final(self)@.entries == old(self)@.entries,
            old(self)@.current matches Some(TaskView::Dir(p, d)) && match outcome {
                Ok(names) => {
                    &&& exists|sorted: Seq<Seq<char>>|
                        {
                            &&& sorted.to_multiset() == conf_names(
                                string_seq_views(names@),
                            ).to_multiset()
                            &&& names_sorted(sorted)
                            &&& final(self)@.pending == dir_file_tasks(p, sorted, d) + old(
                                self,
                            )@.pending
                        }
                    &&& final(self)@.warnings == old(self)@.warnings
                },
                Err(msg) => {
                    &&& final(self)@.pending == old(self)@.pending
                    &&& final(self)@.warnings == old(self)@.warnings.push(p + ": "@ + msg@)
                },
            },
    {
        let task = self.current.take();
        let (path, depth) = match task {
            Some(LoadTask::Dir { path, depth }) => (path, depth),
            _ => {
                return ;
            },
        };
        match outcome {
            Ok(names) => {
                let selected = select_conf_names(&names);
                let sorted = sort_names(selected);
                let dir = chars_of(path.as_str());
                let ghost pv = self@.pending;
                let mut tasks: Vec<LoadTask> = Vec::new();
                let mut k: usize = 0;
                while k < sorted.len()
                    invariant
                        k <= sorted.len(),
                        dir@ == path@,
                        depth <= MAX_INCLUDE_DEPTH,
                        task_views(tasks@) == dir_file_tasks(
                            path@,
                            views(sorted@).take(k as int),
                            depth as nat,
                        ),
                        forall|i: int| 0 <= i < tasks.len() ==> task_depth_ok(#[trigger] tasks@[i]@),
                    decreases sorted.len() - k,
                {
                    let full = join_path(&dir, &sorted[k]);
                    let ghost before = task_views(tasks@);
                    let t = LoadTask::File { path: vec_to_string(&full), depth: depth + 1 };
                    let ghost tview = t@;
                    tasks.push(t);
                    proof {
                        assert(views(sorted@).take(k + 1) == views(sorted@).take(k as int).push(
                            sorted@[k as int]@,
                        ));
                        assert(task_views(tasks@) == before.push(tview));
                        assert(task_views(tasks@) =~= dir_file_tasks(
                            path@,
                            views(sorted@).take(k + 1),
                            depth as nat,
                        ));
                        assert forall|i: int| 0 <= i < tasks.len() implies task_depth_ok(
                            #[trigger] tasks@[i]@,
                        ) by {
                            if i < k {
                                assert(tasks@[i]@ == before[i]);
                            }
                        }
                    }
                    k = k + 1;
                }
                assert(views(sorted@).take(sorted.len() as int) == views(sorted@));
                let mut rest: Vec<LoadTask> = Vec::new();
                std::mem::swap(&mut rest, &mut self.pending);
                let ghost tv = task_views(tasks@);
                let ghost rv = task_views(rest@);
                let ghost tasks_seq = tasks@;
                tasks.append(&mut rest);
                assert(task_views(tasks@) == tv + rv);
                self.pending = tasks;
                proof {
                    assert forall|i: int| 0 <= i < self.pending.len() implies task_depth_ok(
                        #[trigger] self.pending@[i]@,
                    ) by {
                        if i < tasks_seq.len() {
                            assert(self.pending@[i] == tasks_seq[i]);
                        } else {
                            assert(self.pending@[i]@ == rv[i - tasks_seq.len()]);
                        }
                    }
                }
            },
            Err(msg) => {
                let mut m: Vec<char> = Vec::new();
                push_str(&mut m, path.as_str());
                push_str(&mut m, ": ");
                push_str(&mut m, msg.as_str());
                let ghost ww = self@.warnings;
                self.warnings.push(vec_to_string(&m));
                assert(self@.warnings == ww.push(path@ + ": "@ + msg@));
            },
        }
    }

    /// What was collected: the entries and the warnings, in load order.
    pub fn finish(self) -> (r: (Vec<HbaEntry>, Vec<String>))
        ensures
            entry_views(r.0@) == self@.entries,
            string_seq_views(r.1@) == self@.warnings,
    {
        (self.entries, self.warnings)
    }
}

/// Where the pg_hba.conf path comes from.
pub enum HbaPath {
    /// Given in the scan configuration.
    Given(String),
    /// To be asked of the connected server (`SHOW hba_file`).
    FromServer,
}

/// Resolves the pg_hba.conf path: the configured one, else the server's if a
/// connection is open; with neither there is nothing to read.
pub fn resolve_hba_path(config: &ScanConfig, connected: bool) -> (r: Result<HbaPath, CheckError>)
    ensures
        match config.hba_file {
            Some(p) => r matches Ok(HbaPath::Given(q)) && q@ == p@,
            None => if connected {
                r matches Ok(HbaPath::FromServer)
            } else {
                r matches Err(CheckError::FileRead(m))
                    && m@ == "No pg_hba.conf path specified and no database connection"@
            },
        },
{
    if let Some(path) = &config.hba_file {
        return Ok(HbaPath::Given(path.clone()));
    }
    if connected {
        return Ok(HbaPath::FromServer);
    }
    Err(CheckError::FileRead(String::from_str("No pg_hba.conf path specified and no database connection")))
}

/// The server setting that holds the pg_hba.conf path.
pub fn hba_file_setting() -> (s: &'static str)
    ensures
        s@ == "hba_file"@,
{
    "hba_file"
}

/// Starts loading the entries of the pg_hba.conf file at `path`, given the
/// outcome of looking the file up: when the main file cannot be looked up
/// this is an error, never an empty (and so passing) set of entries.
pub fn load_hba_entries(path: &str, lookup: Result<(), String>) -> (r: Result<HbaLoader, CheckError>)
    ensures
        match lookup {
            Ok(_) => r matches Ok(l) && l.wf() && l@ == (LoaderView {
                pending: seq![TaskView::File(path@, 0)],
                current: None,
                visited: seq![],
                entries: seq![],
                warnings: seq![],
            }),
            Err(msg) => r matches Err(CheckError::FileRead(m)) && m@ == path@ + ": "@ + msg@,
        },
{
    match lookup {
        Ok(_) => Ok(HbaLoader::new(path)),
        Err(msg) => {
            let mut m: Vec<char> = Vec::new();
            push_str(&mut m, path);
            push_str(&mut m, ": ");
            push_str(&mut m, msg.as_str());
            Err(CheckError::FileRead(vec_to_string(&m)))
        },
    }
}

} // verus!
