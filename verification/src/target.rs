//! Scan targets: bare addresses, CIDR blocks (expanded through `ipnet`)
//! and hostnames (whose lookup the caller performs).
use vstd::prelude::*;
use vstd::arithmetic::power2::{lemma2_to64, lemma_pow2_adds, lemma_pow2_pos, lemma_pow2_strictly_increases, pow2};
use vstd::arithmetic::div_mod::{lemma_div_pos_is_pos, lemma_fundamental_div_mod};
use crate::ip::{ip_bits, ip_text, lemma_pow2_128, ip_to_string, ip_width, parse_ip, parse_ip_addr, IpValue};
use crate::error::{AppError, ConnectionError};
use crate::text::{chars_of, push_str, trim, trimmed, vec_to_string};

verus! {

/// Maximum hosts a single CIDR block may expand to without --allow-large.
pub const MAX_CIDR_HOSTS: usize = 256;

/// A resolved scan target with display name and IP address.
#[derive(Debug, Clone)]
pub struct ResolvedTarget {
    /// Human-readable label (the input as given, or the hostname)
    pub label: String,
    /// Resolved IP address to connect to
    pub addr: IpValue,
}

pub struct TargetView {
    pub label: Seq<char>,
    pub addr: IpValue,
}

impl View for ResolvedTarget {
    type V = TargetView;

    open spec fn view(&self) -> TargetView {
        TargetView { label: self.label@, addr: self.addr }
    }
}

pub open spec fn target_views(v: Seq<ResolvedTarget>) -> Seq<TargetView> {
    v.map_values(|t: ResolvedTarget| t@)
}

/// How a target is shown: the address alone when the label is its text,
/// otherwise `label (address)`.
pub open spec fn target_text(t: TargetView) -> Seq<char> {
    if t.label == ip_text(t.addr) {
        ip_text(t.addr)
    } else {
        t.label + " ("@ + ip_text(t.addr) + ")"@
    }
}

impl ResolvedTarget {
    /// How the target is shown.
    pub fn to_display(&self) -> (s: String)
        ensures
            s@ == target_text(self@),
    {
        let ip = ip_to_string(self.addr);
        if self.label == ip {
            ip
        } else {
            let mut m: Vec<char> = Vec::new();
            push_str(&mut m, self.label.as_str());
            push_str(&mut m, " (");
            push_str(&mut m, ip.as_str());
            push_str(&mut m, ")");
            vec_to_string(&m)
        }
    }
}

/// A network in CIDR notation: an address and a prefix length.
#[derive(Debug, Clone, Copy, PartialEq, Eq, Structural)]
pub struct CidrBlock {
    pub addr: IpValue,
    pub prefix: u8,
}

impl CidrBlock {
    /// The prefix fits the address family.
    pub open spec fn wf(&self) -> bool {
        self.prefix as nat <= ip_width(self.addr)
    }
}

/// Number of addresses in the block.
pub open spec fn block_size(b: CidrBlock) -> nat {
    pow2((ip_width(b.addr) - b.prefix) as nat)
}

/// The block's network address (the address with its host bits cleared).
pub open spec fn network_of(b: CidrBlock) -> nat {
    (ip_bits(b.addr) - ip_bits(b.addr) % block_size(b)) as nat
}

/// Whether the block's first and last addresses are left out of its hosts
/// (IPv4 network and broadcast addresses, when the prefix is below 31).
pub open spec fn skips_ends(b: CidrBlock) -> bool {
    b.addr is V4 && b.prefix < 31
}

pub open spec fn first_host(b: CidrBlock) -> nat {
    if skips_ends(b) {
        network_of(b) + 1
    } else {
        network_of(b)
    }
}

pub open spec fn host_count(b: CidrBlock) -> nat {
    if skips_ends(b) {
        (block_size(b) - 2) as nat
    } else {
        block_size(b)
    }
}

pub open spec fn address_like(family: IpValue, n: nat) -> IpValue {
    match family {
        IpValue::V4(_) => IpValue::V4(n as u32),
        IpValue::V6(_) => IpValue::V6(n as u128),
    }
}

/// The host addresses of the block, in ascending order (as `IpNet::hosts`).
pub open spec fn host_range(b: CidrBlock) -> Seq<IpValue> {
    Seq::new(host_count(b), |i: int| address_like(b.addr, (first_host(b) + i) as nat))
}

/// Every host of a block lies inside it; an IPv4 block with a prefix below
/// 31 also leaves out its network and broadcast addresses, so that its hosts
/// lie strictly between them.
pub proof fn law_hosts_within_block(b: CidrBlock, i: int)
    requires
        b.wf(),
        0 <= i < host_count(b),
    ensures
        network_of(b) <= ip_bits(host_range(b)[i]) < network_of(b) + block_size(b),
        skips_ends(b) ==> network_of(b) < ip_bits(host_range(b)[i]) < network_of(b) + block_size(
            b,
        ) - 1,
{
    let w = ip_width(b.addr);
    let p = b.prefix as nat;
    let bs = block_size(b);
    let a = ip_bits(b.addr);
    lemma_pow2_128();
    lemma_pow2_adds(p, (w - p) as nat);
    lemma_pow2_pos(p);
    lemma_pow2_pos((w - p) as nat);
    let top = pow2(p);
    assert(a < pow2(w));
    lemma_fundamental_div_mod(a as int, bs as int);
    let q = a as int / bs as int;
    lemma_div_pos_is_pos(a as int, bs as int);
    assert(network_of(b) == bs * q);
    assert(bs * q + bs <= pow2(w)) by (nonlinear_arith)
        requires
            bs * q <= a,
            a < top * bs,
            pow2(w) == top * bs,
            bs > 0,
            q >= 0,
    {
        if q >= top {
            assert(bs * q >= bs * top);
        }
    }
    assert(network_of(b) + bs <= pow2(w));
    if skips_ends(b) {
        lemma2_to64();
        lemma_pow2_strictly_increases(1, (w - p) as nat);
        assert(first_host(b) == network_of(b) + 1);
        assert(host_count(b) == bs - 2);
    } else {
        assert(first_host(b) == network_of(b));
        assert(host_count(b) == bs);
    }
    let x = first_host(b) + i;
    assert(x < pow2(w));
    assert(host_range(b)[i] == address_like(b.addr, x as nat));
}

/// What `IpNet`'s `FromStr` reads from the text.
pub uninterp spec fn spec_parse_ip_net(text: Seq<char>) -> Option<CidrBlock>;

/// Calls `<ipnet::IpNet as FromStr>::from_str`. Claimed: the result is the
/// one that `spec_parse_ip_net` names, its prefix fits its family (the
/// parser reads at most 32 or 128), and the error's text is the constant that
/// `AddrParseError`'s `Display` writes.
#[verifier::external_body]
fn parse_ip_net(text: &str) -> (r: Result<CidrBlock, String>)
    ensures
        match r {
            Ok(b) => spec_parse_ip_net(text@) == Some(b) && b.wf(),
            Err(m) => spec_parse_ip_net(text@) is None && m@ == "invalid IP address syntax"@,
        },
{
    match text.parse::<ipnet::IpNet>() {
        Ok(ipnet::IpNet::V4(n)) => Ok(
            CidrBlock { addr: IpValue::V4(u32::from(n.addr())), prefix: n.prefix_len() },
        ),
        Ok(ipnet::IpNet::V6(n)) => Ok(
            CidrBlock { addr: IpValue::V6(u128::from(n.addr())), prefix: n.prefix_len() },
        ),
        Err(e) => Err(e.to_string()),
    }
}

/// The first `limit` hosts of the block (all of them when there are fewer).
pub open spec fn first_hosts(b: CidrBlock, limit: usize) -> Seq<IpValue> {
    host_range(b).take(
        if limit < host_count(b) {
            limit as int
        } else {
            host_count(b) as int
        },
    )
}

/// Calls `ipnet::Ipv4Net::new` and the network's `hosts()`, taking at most
/// `limit` addresses. Claimed (from ipnet's source): the hosts run from the
/// network address to the broadcast address, both left out for prefixes
/// below 31.
#[verifier::external_body]
fn v4_hosts(addr: u32, prefix: u8, limit: usize) -> (r: Vec<IpValue>)
    requires
        prefix <= 32,
    ensures
        r@ == first_hosts(CidrBlock { addr: IpValue::V4(addr), prefix }, limit),
{
    let net = ipnet::Ipv4Net::new(addr.into(), prefix).unwrap();
    net.hosts().take(limit).map(|h| IpValue::V4(u32::from(h))).collect()
}

/// Calls `ipnet::Ipv6Net::new` and the network's `hosts()`, taking at most
/// `limit` addresses. Claimed (from ipnet's source): the hosts are every
/// address from the network address to the last address of the block.
#[verifier::external_body]
fn v6_hosts(addr: u128, prefix: u8, limit: usize) -> (r: Vec<IpValue>)
    requires
        prefix <= 128,
    ensures
        r@ == first_hosts(CidrBlock { addr: IpValue::V6(addr), prefix }, limit),
{
    let net = ipnet::Ipv6Net::new(addr.into(), prefix).unwrap();
    net.hosts().take(limit).map(|h| IpValue::V6(u128::from(h))).collect()
}

/// At most `limit` hosts of the block, in ascending order.
fn net_hosts(b: &CidrBlock, limit: usize) -> (r: Vec<IpValue>)
    requires
        b.wf(),
    ensures
        r@ == first_hosts(*b, limit),
{
    match b.addr {
        IpValue::V4(a) => v4_hosts(a, b.prefix, limit),
        IpValue::V6(a) => v6_hosts(a, b.prefix, limit),
    }
}

/// Whether the block has more hosts than a vector can hold.
fn host_count_exceeds_usize(b: &CidrBlock) -> (r: bool)
    requires
        b.wf(),
    ensures
        r == (host_count(*b) > usize::MAX),
{
    let w: u8 = match b.addr {
        IpValue::V4(_) => 32,
        IpValue::V6(_) => 128,
    };
    let hb = w - b.prefix;
    if hb >= 64 {
        proof {
            vstd::arithmetic::power2::lemma2_to64();
            if hb > 64 {
                vstd::arithmetic::power2::lemma_pow2_strictly_increases(64, hb as nat);
            }
            assert(b.addr is V6);
        }
        return true;
    }
    let mut p: u64 = 1;
    let mut k: u8 = 0;
    proof {
        vstd::arithmetic::power2::lemma2_to64();
    }
    while k < hb
        invariant
            k <= hb < 64,
            p as nat == pow2(k as nat),
            pow2(64) == 0x1_0000_0000_0000_0000,
        decreases hb - k,
    {
        proof {
            vstd::arithmetic::power2::lemma_pow2_unfold((k + 1) as nat);
            vstd::arithmetic::power2::lemma_pow2_strictly_increases((k + 1) as nat, 64);
        }
        p = p * 2;
        k = k + 1;
    }
    let skips = match b.addr {
        IpValue::V4(_) => b.prefix < 31,
        IpValue::V6(_) => false,
    };
    if skips {
        proof {
            vstd::arithmetic::power2::lemma_pow2_strictly_increases(1, hb as nat);
        }
        p - 2 > usize::MAX as u64
    } else {
        p > usize::MAX as u64
    }
}

/// The targets of a CIDR block, each labelled with its address's text.
pub open spec fn block_targets(b: CidrBlock) -> Seq<TargetView> {
    host_range(b).map_values(|a: IpValue| TargetView { label: ip_text(a), addr: a })
}

/// The outcome of expanding `input`, given what parsing it as a network gave:
/// a parse error, a block over `MAX_CIDR_HOSTS` hosts without `allow_large`,
/// a block without hosts, or every host of the block.
pub open spec fn cidr_outcome(
    input: Seq<char>,
    parsed: Result<CidrBlock, Seq<char>>,
    allow_large: bool,
) -> Result<Seq<TargetView>, Seq<char>> {
    match parsed {
        Err(e) => Err("invalid CIDR notation '"@ + input + "': "@ + e),
        Ok(b) => if host_count(b) > 256 && !allow_large {
            Err(
                "CIDR block '"@ + input
                    + "' expands to more than 256 hosts; re-run with --allow-large to scan it anyway"@,
            )
        } else if host_count(b) == 0 {
            Err("CIDR block '"@ + input + "' contains no usable host addresses"@)
        } else if host_count(b) > usize::MAX {
            Err("CIDR block '"@ + input + "' has more hosts than can be listed"@)
        } else {
            Ok(block_targets(b))
        },
    }
}

/// Without `allow_large` a block of more than `MAX_CIDR_HOSTS` hosts is
/// refused, so an expansion gives at most that many targets; a block that is
/// expanded gives one target per host address.
pub proof fn law_cidr_expansion(input: Seq<char>, b: CidrBlock, allow_large: bool)
    ensures
        host_count(b) > MAX_CIDR_HOSTS && !allow_large ==> cidr_outcome(input, Ok(b), allow_large) is Err,
        cidr_outcome(input, Ok(b), allow_large) matches Ok(v) ==> {
            &&& v.len() == host_count(b)
            &&& (!allow_large ==> v.len() <= MAX_CIDR_HOSTS)
        },
{
}

pub open spec fn outcome_view(r: Result<Vec<ResolvedTarget>, String>) -> Result<
    Seq<TargetView>,
    Seq<char>,
> {
    match r {
        Ok(v) => Ok(target_views(v@)),
        Err(e) => Err(e@),
    }
}

pub open spec fn parsed_view(r: Result<CidrBlock, String>) -> Result<CidrBlock, Seq<char>> {
    match r {
        Ok(b) => Ok(b),
        Err(e) => Err(e@),
    }
}

fn label_targets(addrs: &Vec<IpValue>) -> (r: Vec<ResolvedTarget>)
    ensures
        target_views(r@) == addrs@.map_values(
            |a: IpValue| TargetView { label: ip_text(a), addr: a },
        ),
{
    let mut r: Vec<ResolvedTarget> = Vec::new();
    let mut k: usize = 0;
    while k < addrs.len()
        invariant
            k <= addrs.len(),
            target_views(r@) == addrs@.take(k as int).map_values(
                |a: IpValue| TargetView { label: ip_text(a), addr: a },
            ),
        decreases addrs.len() - k,
    {
        let a = addrs[k];
        let t = ResolvedTarget { label: ip_to_string(a), addr: a };
        let ghost before = target_views(r@);
        let ghost tv = t@;
        r.push(t);
        proof {
            assert(target_views(r@) == before.push(tv));
            assert(addrs@.take(k + 1) == addrs@.take(k as int).push(a));
            assert(target_views(r@) =~= addrs@.take(k + 1).map_values(
                |a: IpValue| TargetView { label: ip_text(a), addr: a },
            ));
        }
        k = k + 1;
    }
    assert(addrs@.take(addrs.len() as int) == addrs@);
    r
}

/// Expands `input`, given what parsing it as a network gave.
pub fn expand_cidr(input: &str, parsed: Result<CidrBlock, String>, allow_large: bool) -> (r:
    Result<Vec<ResolvedTarget>, String>)
    requires
        parsed matches Ok(b) ==> b.wf(),
    ensures
        outcome_view(r) == cidr_outcome(input@, parsed_view(parsed), allow_large),
{
    let b = match parsed {
        Err(e) => {
            let mut m: Vec<char> = Vec::new();
            push_str(&mut m, "invalid CIDR notation '");
            push_str(&mut m, input);
            push_str(&mut m, "': ");
            push_str(&mut m, e.as_str());
            return Err(vec_to_string(&m));
        },
        Ok(b) => b,
    };
    // Take at most MAX_CIDR_HOSTS + 1 so we can detect oversized blocks
    // without materialising millions of addresses (IPv6 /64 etc.).
    let first = net_hosts(&b, MAX_CIDR_HOSTS + 1);
    if first.len() > MAX_CIDR_HOSTS && !allow_large {
        let mut m: Vec<char> = Vec::new();
        push_str(&mut m, "CIDR block '");
        push_str(&mut m, input);
        push_str(
            &mut m,
            "' expands to more than 256 hosts; re-run with --allow-large to scan it anyway",
        );
        return Err(vec_to_string(&m));
    }
    if first.len() == 0 {
        let mut m: Vec<char> = Vec::new();
        push_str(&mut m, "CIDR block '");
        push_str(&mut m, input);
        push_str(&mut m, "' contains no usable host addresses");
        return Err(vec_to_string(&m));
    }
    if host_count_exceeds_usize(&b) {
        let mut m: Vec<char> = Vec::new();
        push_str(&mut m, "CIDR block '");
        push_str(&mut m, input);
        push_str(&mut m, "' has more hosts than can be listed");
        return Err(vec_to_string(&m));
    }
    // Oversized but allowed: re-expand fully.
    let all = if first.len() > MAX_CIDR_HOSTS {
        net_hosts(&b, usize::MAX)
    } else {
        first
    };
    assert(all@ == host_range(b));
    Ok(label_targets(&all))
}

/// Expand a CIDR block into individual host IPs.
pub fn resolve_cidr(input: &str, allow_large: bool) -> (r: Result<Vec<ResolvedTarget>, String>)
    ensures
        outcome_view(r) == cidr_outcome(input@, parsed_net(input@), allow_large),
{
    let parsed = parse_ip_net(input);
    expand_cidr(input, parsed, allow_large)
}

/// What a target input turned out to be: addresses to scan, or a hostname
/// that still has to be looked up (see `resolve_hostname`).
pub enum TargetResolution {
    Targets(Vec<ResolvedTarget>),
    Hostname(String),
}

/// What a target input is, as values.
pub enum ResolutionView {
    Targets(Seq<TargetView>),
    Hostname(Seq<char>),
}

/// The value of a resolution.
pub open spec fn resolution_view(r: Result<TargetResolution, String>) -> Result<
    ResolutionView,
    Seq<char>,
> {
    match r {
        Ok(TargetResolution::Targets(v)) => Ok(ResolutionView::Targets(target_views(v@))),
        Ok(TargetResolution::Hostname(h)) => Ok(ResolutionView::Hostname(h@)),
        Err(e) => Err(e@),
    }
}

/// What parsing the text as a network gives (the error is the text that
/// `ipnet`'s parse error is shown with).
pub open spec fn parsed_net(input: Seq<char>) -> Result<CidrBlock, Seq<char>> {
    match spec_parse_ip_net(input) {
        Some(b) => Ok(b),
        None => Err("invalid IP address syntax"@),
    }
}

/// What a target input is: a CIDR block when it holds a `/` (expanded, or
/// the reason it cannot be), else a bare address, else a hostname.
pub open spec fn target_outcome(input: Seq<char>, allow_large: bool) -> Result<
    ResolutionView,
    Seq<char>,
> {
    if input.contains('/') {
        match cidr_outcome(input, parsed_net(input), allow_large) {
            Ok(v) => Ok(ResolutionView::Targets(v)),
            Err(e) => Err(e),
        }
    } else {
        match parse_ip(input) {
            Some(a) => Ok(ResolutionView::Targets(seq![TargetView { label: input, addr: a }])),
            None => Ok(ResolutionView::Hostname(input)),
        }
    }
}

/// Parse a target string into one or more resolved targets.
///
/// Accepts:
/// - IPv4/IPv6 address: `192.168.1.1`, `::1`
/// - CIDR block: `192.168.1.0/24`, `fd00::/120`
/// - Hostname: `db.example.com` (handed back for a DNS lookup)
///
/// CIDR blocks larger than `MAX_CIDR_HOSTS` are rejected unless
/// `allow_large` is set.
pub fn resolve_target(input: &str, allow_large: bool) -> (r: Result<TargetResolution, String>)
    ensures
        resolution_view(r) == target_outcome(input@, allow_large),
{
    let chars = chars_of(input);
    let mut has_slash = false;
    let mut k: usize = 0;
    while k < chars.len()
        invariant
            k <= chars.len(),
            has_slash == exists|j: int| 0 <= j < k && chars@[j] == '/',
        decreases chars.len() - k,
    {
        if chars[k] == '/' {
            has_slash = true;
        }
        k = k + 1;
    }
    assert(has_slash == input@.contains('/'));
    // Try CIDR first
    if has_slash {
        return match resolve_cidr(input, allow_large) {
            Ok(v) => Ok(TargetResolution::Targets(v)),
            Err(e) => Err(e),
        };
    }
    // Try bare IP address
    if let Some(addr) = parse_ip_addr(input) {
        let mut v: Vec<ResolvedTarget> = Vec::new();
        v.push(ResolvedTarget { label: String::from_str(input), addr });
        assert(target_views(v@) =~= seq![TargetView { label: input@, addr }]);
        return Ok(TargetResolution::Targets(v));
    }
    // Must be a hostname: resolved via DNS by the caller
    Ok(TargetResolution::Hostname(String::from_str(input)))
}

/// The addresses of `addrs` without repeats, in order of first occurrence.
pub open spec fn first_occurrences(addrs: Seq<IpValue>) -> Seq<IpValue>
    decreases addrs.len(),
{
    if addrs.len() == 0 {
        seq![]
    } else {
        let r = first_occurrences(addrs.drop_last());
        if r.contains(addrs.last()) {
            r
        } else {
            r.push(addrs.last())
        }
    }
}

/// The targets for a hostname, given what looking it up gave: a lookup
/// error, no addresses, or one target per distinct address in the order
/// returned (DNS can return duplicates across A/AAAA records).
pub open spec fn hostname_outcome(hostname: Seq<char>, lookup: Result<Seq<IpValue>, Seq<char>>) -> Result<
    Seq<TargetView>,
    Seq<char>,
> {
    match lookup {
        Err(e) => Err("DNS resolution failed for '"@ + hostname + "': "@ + e),
        Ok(addrs) => if addrs.len() == 0 {
            Err("hostname '"@ + hostname + "' resolved to no addresses"@)
        } else {
            Ok(
                first_occurrences(addrs).map_values(
                    |a: IpValue| TargetView { label: hostname, addr: a },
                ),
            )
        },
    }
}

pub open spec fn lookup_view(l: Result<Vec<IpValue>, String>) -> Result<Seq<IpValue>, Seq<char>> {
    match l {
        Ok(v) => Ok(v@),
        Err(e) => Err(e@),
    }
}

fn contains_addr(v: &Vec<IpValue>, a: IpValue) -> (b: bool)
    ensures
        b == v@.contains(a),
{
    let mut i: usize = 0;
    while i < v.len()
        invariant
            i <= v.len(),
            forall|k: int| 0 <= k < i ==> v@[k] != a,
        decreases v.len() - i,
    {
        if v[i] == a {
            return true;
        }
        i = i + 1;
    }
    false
}

/// Resolve a hostname to IP addresses, given the outcome of its DNS lookup.
pub fn resolve_hostname(hostname: &str, lookup: Result<Vec<IpValue>, String>) -> (r: Result<
    Vec<ResolvedTarget>,
    String,
>)
    ensures
        outcome_view(r) == hostname_outcome(hostname@, lookup_view(lookup)),
{
    let addrs = match lookup {
        Err(e) => {
            let mut m: Vec<char> = Vec::new();
            push_str(&mut m, "DNS resolution failed for '");
            push_str(&mut m, hostname);
            push_str(&mut m, "': ");
            push_str(&mut m, e.as_str());
            return Err(vec_to_string(&m));
        },
        Ok(a) => a,
    };
    if addrs.len() == 0 {
        let mut m: Vec<char> = Vec::new();
        push_str(&mut m, "hostname '");
        push_str(&mut m, hostname);
        push_str(&mut m, "' resolved to no addresses");
        return Err(vec_to_string(&m));
    }
    // Deduplicate IPs (DNS can return duplicates across A/AAAA)
    let mut seen: Vec<IpValue> = Vec::new();
    let mut k: usize = 0;
    while k < addrs.len()
        invariant
            k <= addrs.len(),
            seen@ == first_occurrences(addrs@.take(k as int)),
        decreases addrs.len() - k,
    {
        proof {
            assert(addrs@.take(k + 1).drop_last() == addrs@.take(k as int));
        }
        let a = addrs[k];
        if !contains_addr(&seen, a) {
            seen.push(a);
        }
        k = k + 1;
    }
    assert(addrs@.take(addrs.len() as int) == addrs@);
    let mut r: Vec<ResolvedTarget> = Vec::new();
    let mut j: usize = 0;
    while j < seen.len()
        invariant
            j <= seen.len(),
            target_views(r@) == seen@.take(j as int).map_values(
                |a: IpValue| TargetView { label: hostname@, addr: a },
            ),
        decreases seen.len() - j,
    {
        let t = ResolvedTarget { label: String::from_str(hostname), addr: seen[j] };
        let ghost before = target_views(r@);
        let ghost tv = t@;
        r.push(t);
        proof {
            assert(target_views(r@) == before.push(tv));
            assert(seen@.take(j + 1) == seen@.take(j as int).push(seen@[j as int]));
            assert(target_views(r@) =~= seen@.take(j + 1).map_values(
                |a: IpValue| TargetView { label: hostname@, addr: a },
            ));
        }
        j = j + 1;
    }
    assert(seen@.take(seen.len() as int) == seen@);
    Ok(r)
}

/// One step of resolving a list of target inputs.
pub enum CollectStep {
    /// Look this hostname up and hand the outcome to `looked_up`.
    Lookup(String),
    /// Every input is resolved: all their targets, in input order.
    Done(Vec<ResolvedTarget>),
    /// An input could not be resolved; nothing after it is looked at.
    Failed(String),
}

/// A step, as values.
pub enum StepView {
    Lookup(Seq<char>),
    Done(Seq<TargetView>),
    Failed(Seq<char>),
}

impl View for CollectStep {
    type V = StepView;

    open spec fn view(&self) -> StepView {
        match self {
            CollectStep::Lookup(h) => StepView::Lookup(h@),
            CollectStep::Done(v) => StepView::Done(target_views(v@)),
            CollectStep::Failed(e) => StepView::Failed(e@),
        }
    }
}

/// Resolves the inputs from index `i` on, with `found` collected before it,
/// up to the first one that needs a lookup or fails: gives the index after
/// the input last looked at, the targets collected, and the step.
pub open spec fn scan_inputs(
    inputs: Seq<Seq<char>>,
    i: nat,
    allow_large: bool,
    found: Seq<TargetView>,
) -> (nat, Seq<TargetView>, StepView)
    decreases inputs.len() - i,
{
    if i >= inputs.len() {
        (i, found, StepView::Done(found))
    } else {
        match target_outcome(trimmed(inputs[i as int]), allow_large) {
            Err(e) => ((i + 1) as nat, found, StepView::Failed(e)),
            Ok(ResolutionView::Targets(v)) => scan_inputs(inputs, (i + 1) as nat, allow_large, found + v),
            Ok(ResolutionView::Hostname(h)) => ((i + 1) as nat, found, StepView::Lookup(h)),
        }
    }
}

/// The state of a `TargetCollector`.
pub struct CollectorView {
    pub inputs: Seq<Seq<char>>,
    pub next: nat,
    pub allow_large: bool,
    pub found: Seq<TargetView>,
    pub waiting: Option<Seq<char>>,
}

/// Resolves a list of target inputs into one flat list of targets; the
/// caller performs the DNS lookups that hostnames need.
pub struct TargetCollector {
    inputs: Vec<String>,
    next: usize,
    allow_large: bool,
    found: Vec<ResolvedTarget>,
    waiting: Option<String>,
}

pub open spec fn opt_chars(o: Option<String>) -> Option<Seq<char>> {
    match o {
        Some(s) => Some(s@),
        None => None,
    }
}

impl View for TargetCollector {
    type V = CollectorView;

    closed spec fn view(&self) -> CollectorView {
        CollectorView {
            inputs: self.inputs@.map_values(|s: String| s@),
            next: self.next as nat,
            allow_large: self.allow_large,
            found: target_views(self.found@),
            waiting: opt_chars(self.waiting),
        }
    }
}

/// Resolve all target inputs (each trimmed) into a flat list of targets:
/// gives the collector that does so step by step.
pub fn resolve_all_targets(inputs: &Vec<String>, allow_large: bool) -> (c: TargetCollector)
    ensures
        c@ == (CollectorView {
            inputs: inputs@.map_values(|s: String| s@),
            next: 0,
            allow_large,
            found: seq![],
            waiting: None,
        }),
{
    let c = TargetCollector {
        inputs: inputs.clone(),
        next: 0,
        allow_large,
        found: Vec::new(),
        waiting: None,
    };
    assert(c@.found =~= seq![]);
    c
}

impl TargetCollector {
    /// Resolves inputs until one needs a DNS lookup, fails, or none is left;
    /// when none is left the collected targets are handed out.
    pub fn step(&mut self) -> (r: CollectStep)
        requires
            old(self)@.waiting is None,
            old(self)@.next <= old(self)@.inputs.len(),
        ensures
            ({
                let (next, found, step) = scan_inputs(
                    old(self)@.inputs,
                    old(self)@.next,
                    old(self)@.allow_large,
                    old(self)@.found,
                );
                &&& r@ == step
                &&& final(self)@.next == next
                &&& final(self)@.found == if step is Done {
                    seq![]
                } else {
                    found
                }
                &&& final(self)@.waiting == match step {
                    StepView::Lookup(h) => Some(h),
                    _ => None::<Seq<char>>,
                }
            }),
            final(self)@.inputs == old(self)@.inputs,
            final(self)@.allow_large == old(self)@.allow_large,
            final(self)@.next <= final(self)@.inputs.len(),
    {
        loop
            invariant
                self@.waiting is None,
                self@.next <= self@.inputs.len(),
                self@.inputs == old(self)@.inputs,
                self@.allow_large == old(self)@.allow_large,
                self.inputs@.len() == self@.inputs.len(),
                scan_inputs(self@.inputs, self@.next, self@.allow_large, self@.found) == scan_inputs(
                    old(self)@.inputs,
                    old(self)@.next,
                    old(self)@.allow_large,
                    old(self)@.found,
                ),
            decreases self.inputs.len() - self.next,
        {
            if self.next >= self.inputs.len() {
                let mut done: Vec<ResolvedTarget> = Vec::new();
                std::mem::swap(&mut done, &mut self.found);
                assert(target_views(self.found@) =~= seq![]);
                return CollectStep::Done(done);
            }
            let input = trim(self.inputs[self.next].as_str());
            assert(self@.inputs[self.next as int] == self.inputs@[self.next as int]@);
            self.next = self.next + 1;
            match resolve_target(input.as_str(), self.allow_large) {
                Err(e) => {
                    return CollectStep::Failed(e);
                },
                Ok(TargetResolution::Hostname(h)) => {
                    self.waiting = Some(h.clone());
                    return CollectStep::Lookup(h);
                },
                Ok(TargetResolution::Targets(mut v)) => {
                    let ghost before = target_views(self.found@);
                    let ghost add = target_views(v@);
                    self.found.append(&mut v);
                    assert(target_views(self.found@) =~= before + add);
                },
            }
        }
    }

    /// Hands back the outcome of the lookup that the last step asked for.
    /// Gives the error when the hostname resolves to nothing usable.
    pub fn looked_up(&mut self, lookup: Result<Vec<IpValue>, String>) -> (r: Option<String>)
        requires
            old(self)@.waiting is Some,
        ensures
            final(self)@.waiting is None,
            final(self)@.inputs == old(self)@.inputs,
            final(self)@.next == old(self)@.next,
            final(self)@.allow_large == old(self)@.allow_large,
            match hostname_outcome(old(self)@.waiting->0, lookup_view(lookup)) {
                Ok(v) => r is None && final(self)@.found == old(self)@.found + v,
                Err(e) => r matches Some(m) && m@ == e && final(self)@.found == old(self)@.found,
            },
    {
        let host = match self.waiting.take() {
            Some(h) => h,
            None => String::new(),
        };
        match resolve_hostname(host.as_str(), lookup) {
            Ok(mut v) => {
                let ghost before = target_views(self.found@);
                let ghost add = target_views(v@);
                self.found.append(&mut v);
                assert(target_views(self.found@) =~= before + add);
                None
            },
            Err(e) => Some(e),
        }
    }
}

/// The targets to scan: resolving the inputs to no target at all is a
/// configuration error.
pub fn require_targets(targets: Vec<ResolvedTarget>) -> (r: Result<Vec<ResolvedTarget>, AppError>)
    ensures
        targets.len() == 0 ==> (r matches Err(AppError::Config(m)) && m@
            == "No targets resolved from input"@),
        targets.len() > 0 ==> (r matches Ok(v) && v@ == targets@),
{
    if targets.len() == 0 {
        Err(AppError::Config(String::from_str("No targets resolved from input")))
    } else {
        Ok(targets)
    }
}

/// What a scan does when connecting to a target failed: in offline mode it
/// carries on without a connection (file-based checks only); otherwise the
/// scan stops with the connection error.
pub fn connect_failure_outcome(offline: bool, error: ConnectionError) -> (r: Result<(), AppError>)
    ensures
        offline ==> r is Ok,
        !offline ==> (r matches Err(AppError::Connection(ConnectionError::Connection(m))) && (
        error matches ConnectionError::Connection(n) && m@ == n@)),
{
    if offline {
        Ok(())
    } else {
        Err(AppError::Connection(error))
    }
}

} // verus!
