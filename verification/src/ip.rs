//! IP addresses as plain integers: the textual forms that `IpAddr`'s
//! `FromStr` accepts, the text its `Display` gives, and netmask prefixes.
use vstd::prelude::*;
use vstd::arithmetic::power2::{pow2, lemma_pow2_strictly_increases, lemma_pow2_adds, lemma2_to64, lemma_pow2_unfold};
use crate::text::{chars_of, decimal, hexadecimal, push_decimal, push_hex, push_str, vec_to_string};

verus! {

/// An IP address: IPv4 as a `u32`, IPv6 as a `u128` (big-endian bits).
#[derive(Clone, Copy, Debug, PartialEq, Eq, Structural)]
pub enum IpValue {
    V4(u32),
    V6(u128),
}

// ---------------------------------------------------------------------
// Parsing
// ---------------------------------------------------------------------
/// The value of a decimal digit.
pub open spec fn dec_value(c: char) -> Option<nat> {
    if 48 <= (c as u32) <= 57 {
        Some((c as u32 - 48) as nat)
    } else {
        None
    }
}

/// The value of a hexadecimal digit (either case).
pub open spec fn hex_value(c: char) -> Option<nat> {
    let u = c as u32;
    if 48 <= u <= 57 {
        Some((u - 48) as nat)
    } else if 97 <= u <= 102 {
        Some((u - 87) as nat)
    } else if 65 <= u <= 70 {
        Some((u - 55) as nat)
    } else {
        None
    }
}

/// End of the run of digits (decimal, or hexadecimal when `hex`) from `i`.
pub open spec fn digit_run_end(s: Seq<char>, i: int, hex: bool) -> int
    decreases s.len() - i,
{
    if i < 0 || i >= s.len() || (if hex {
        hex_value(s[i])
    } else {
        dec_value(s[i])
    }) is None {
        i
    } else {
        digit_run_end(s, i + 1, hex)
    }
}

/// The number that the digits `s[i..e]` spell.
pub open spec fn digits_value(s: Seq<char>, i: int, e: int, hex: bool) -> nat
    decreases e - i,
{
    if e <= i {
        0
    } else if hex {
        digits_value(s, i, e - 1, hex) * 16 + hex_value(s[e - 1]).unwrap()
    } else {
        digits_value(s, i, e - 1, hex) * 10 + dec_value(s[e - 1]).unwrap()
    }
}

/// One IPv4 octet at `i`: one to three decimal digits, at most 255, and no
/// leading zero unless the octet is `0` itself.
pub open spec fn read_octet(s: Seq<char>, i: int) -> Option<(u8, int)> {
    let e = digit_run_end(s, i, false);
    let n = e - i;
    if n <= 0 || n > 3 {
        None
    } else if digits_value(s, i, e, false) > 255 {
        None
    } else if s[i] == '0' && n > 1 {
        None
    } else {
        Some((digits_value(s, i, e, false) as u8, e))
    }
}

/// A `'.'` at `i` followed by an octet.
pub open spec fn read_dot_octet(s: Seq<char>, i: int) -> Option<(u8, int)> {
    if 0 <= i < s.len() && s[i] == '.' {
        read_octet(s, i + 1)
    } else {
        None
    }
}

pub open spec fn octets_value(a: u8, b: u8, c: u8, d: u8) -> u32 {
    (a as nat * 16777216 + b as nat * 65536 + c as nat * 256 + d as nat) as u32
}

/// A dotted-quad IPv4 address starting at `i`, and where it ends.
pub open spec fn read_ipv4(s: Seq<char>, i: int) -> Option<(u32, int)> {
    match read_octet(s, i) {
        None => None,
        Some((a, p1)) => match read_dot_octet(s, p1) {
            None => None,
            Some((b, p2)) => match read_dot_octet(s, p2) {
                None => None,
                Some((c, p3)) => match read_dot_octet(s, p3) {
                    None => None,
                    Some((d, p4)) => Some((octets_value(a, b, c, d), p4)),
                },
            },
        },
    }
}

/// One IPv6 group at `i`: one to four hexadecimal digits.
pub open spec fn read_group(s: Seq<char>, i: int) -> Option<(u16, int)> {
    let e = digit_run_end(s, i, true);
    let n = e - i;
    if n <= 0 || n > 4 {
        None
    } else if digits_value(s, i, e, true) > 0xffff {
        None
    } else {
        Some((digits_value(s, i, e, true) as u16, e))
    }
}

/// Where group `i` may start: right away for the first group, after a `':'`
/// otherwise.
pub open spec fn group_start(s: Seq<char>, pos: int, i: nat) -> Option<int> {
    if i == 0 {
        Some(pos)
    } else if 0 <= pos < s.len() && s[pos] == ':' {
        Some(pos + 1)
    } else {
        None
    }
}

/// Reads up to `limit` colon-separated groups from `pos`, where the last
/// two may be written as an embedded IPv4 address. Gives the groups, whether
/// they ended in an IPv4 address, and where reading stopped.
pub open spec fn read_groups(s: Seq<char>, pos: int, i: nat, limit: nat, acc: Seq<u16>) -> (
    Seq<u16>,
    bool,
    int,
)
    decreases limit - i,
{
    if i >= limit {
        (acc, false, pos)
    } else {
        let v4 = if i + 1 < limit {
            match group_start(s, pos, i) {
                Some(q) => read_ipv4(s, q),
                None => None,
            }
        } else {
            None
        };
        match v4 {
            Some((a, e)) => (acc + seq![(a / 65536) as u16, (a % 65536) as u16], true, e),
            None => match group_start(s, pos, i) {
                None => (acc, false, pos),
                Some(q) => match read_group(s, q) {
                    None => (acc, false, pos),
                    Some((g, e)) => read_groups(s, e, i + 1, limit, acc.push(g)),
                },
            },
        }
    }
}

/// An IPv6 address starting at `pos`, as its eight groups, and where it ends.
pub open spec fn read_ipv6(s: Seq<char>, pos: int) -> Option<(Seq<u16>, int)> {
    let (head, head_v4, p) = read_groups(s, pos, 0, 8, seq![]);
    if head.len() == 8 {
        Some((head, p))
    } else if head_v4 {
        None
    } else if 0 <= p && p + 1 < s.len() && s[p] == ':' && s[p + 1] == ':' {
        let limit = (8 - (head.len() + 1)) as nat;
        let (tail, _, q) = read_groups(s, p + 2, 0, limit, seq![]);
        Some(
            (
                head + Seq::new((8 - head.len() - tail.len()) as nat, |_k: int| 0u16) + tail,
                q,
            ),
        )
    } else {
        None
    }
}

/// The number that groups spell, most significant first.
pub open spec fn groups_value(g: Seq<u16>) -> nat
    decreases g.len(),
{
    if g.len() == 0 {
        0
    } else {
        groups_value(g.drop_last()) * 65536 + g.last() as nat
    }
}

/// The address that `text` spells, as `IpAddr`'s `FromStr` reads it: a
/// dotted quad, or else the colon form of IPv6.
pub open spec fn parse_ip(text: Seq<char>) -> Option<IpValue> {
    match read_ipv4(text, 0) {
        Some((a, e)) => if e == text.len() {
            Some(IpValue::V4(a))
        } else {
            None
        },
        None => match read_ipv6(text, 0) {
            Some((g, e)) => if e == text.len() {
                Some(IpValue::V6(groups_value(g) as u128))
            } else {
                None
            },
            None => None,
        },
    }
}

proof fn lemma_digit_run_step(s: Seq<char>, i: int, j: int, hex: bool)
    requires
        0 <= i <= j < s.len(),
        digit_run_end(s, i, hex) == digit_run_end(s, j, hex),
        (if hex {
            hex_value(s[j])
        } else {
            dec_value(s[j])
        }) is Some,
    ensures
        digit_run_end(s, i, hex) == digit_run_end(s, j + 1, hex),
{
}

proof fn lemma_digit_run_ge(s: Seq<char>, i: int, hex: bool)
    requires
        0 <= i <= s.len(),
    ensures
        i <= digit_run_end(s, i, hex) <= s.len(),
        forall|k: int|
            i <= k < digit_run_end(s, i, hex) ==> (if hex {
                hex_value(#[trigger] s[k])
            } else {
                dec_value(s[k])
            }) is Some,
    decreases s.len() - i,
{
    if i < s.len() && (if hex {
        hex_value(s[i])
    } else {
        dec_value(s[i])
    }) is Some {
        lemma_digit_run_ge(s, i + 1, hex);
    }
}

fn dec_digit(c: char) -> (r: Option<u32>)
    ensures
        r matches Some(v) ==> dec_value(c) == Some(v as nat) && v < 10,
        r is None ==> dec_value(c) is None,
{
    let u = c as u32;
    if 48 <= u && u <= 57 {
        Some(u - 48)
    } else {
        None
    }
}

fn hex_digit(c: char) -> (r: Option<u32>)
    ensures
        r matches Some(v) ==> hex_value(c) == Some(v as nat) && v < 16,
        r is None ==> hex_value(c) is None,
{
    let u = c as u32;
    if 48 <= u && u <= 57 {
        Some(u - 48)
    } else if 97 <= u && u <= 102 {
        Some(u - 87)
    } else if 65 <= u && u <= 70 {
        Some(u - 55)
    } else {
        None
    }
}

fn digit_of(c: char, hex: bool) -> (r: Option<u32>)
    ensures
        r matches Some(v) ==> (if hex {
            hex_value(c)
        } else {
            dec_value(c)
        }) == Some(v as nat) && v < (if hex {
            16u32
        } else {
            10u32
        }),
        r is None ==> (if hex {
            hex_value(c)
        } else {
            dec_value(c)
        }) is None,
{
    if hex {
        hex_digit(c)
    } else {
        dec_digit(c)
    }
}

/// `16^k` for the run lengths that the parser reads.
spec fn run_bound(k: int) -> int {
    if k <= 0 {
        1
    } else if k == 1 {
        16
    } else if k == 2 {
        256
    } else if k == 3 {
        4096
    } else {
        65536
    }
}

/// Reads a run of at most `max` digits from `i`: its value and end, or
/// `None` when there are none or more than `max`.
fn read_digits(s: &Vec<char>, i: usize, hex: bool, max: usize) -> (r: Option<(u32, usize)>)
    requires
        i <= s.len(),
        1 <= max <= 4,
    ensures
        r matches Some((v, e)) ==> {
            &&& e == digit_run_end(s@, i as int, hex)
            &&& i < e
            &&& e - i <= max
            &&& v == digits_value(s@, i as int, e as int, hex)
            &&& v < run_bound(e - i)
        },
        r is None ==> ({
            let n = digit_run_end(s@, i as int, hex) - i;
            n == 0 || n > max
        }),
{
    let mut j = i;
    let mut v: u32 = 0;
    proof {
        lemma_digit_run_ge(s@, i as int, hex);
    }
    while j < s.len() && j - i <= max && digit_of(s[j], hex).is_some()
        invariant
            i <= j <= s.len(),
            j - i <= max + 1,
            max <= 4,
            digit_run_end(s@, i as int, hex) == digit_run_end(s@, j as int, hex),
            j - i <= max ==> v == digits_value(s@, i as int, j as int, hex),
            j - i <= max ==> v < run_bound(j - i),
        decreases s.len() - j,
    {
        if let Some(dv) = digit_of(s[j], hex) {
            proof {
                lemma_digit_run_step(s@, i as int, j as int, hex);
            }
            if j - i < max {
                v = if hex {
                    v * 16 + dv
                } else {
                    v * 10 + dv
                };
            }
        }
        j = j + 1;
    }
    proof {
        lemma_digit_run_ge(s@, j as int, hex);
    }
    if j - i == 0 || j - i > max {
        None
    } else {
        Some((v, j))
    }
}

/// Positions as integers, for comparing an executable read with its spec.
pub open spec fn at_int<T>(r: Option<(T, usize)>) -> Option<(T, int)> {
    match r {
        Some((v, e)) => Some((v, e as int)),
        None => None,
    }
}

fn exec_read_octet(s: &Vec<char>, i: usize) -> (r: Option<(u8, usize)>)
    requires
        i <= s.len(),
    ensures
        at_int(r) == read_octet(s@, i as int),
        r matches Some((_, e)) ==> e <= s.len(),
{
    proof {
        lemma_digit_run_ge(s@, i as int, false);
    }
    match read_digits(s, i, false, 3) {
        None => None,
        Some((v, e)) => {
            if v > 255 {
                None
            } else if s[i] == '0' && e - i > 1 {
                None
            } else {
                Some((v as u8, e))
            }
        },
    }
}

fn exec_read_dot_octet(s: &Vec<char>, i: usize) -> (r: Option<(u8, usize)>)
    requires
        i <= s.len(),
    ensures
        at_int(r) == read_dot_octet(s@, i as int),
        r matches Some((_, e)) ==> e <= s.len(),
{
    if i < s.len() && s[i] == '.' {
        exec_read_octet(s, i + 1)
    } else {
        None
    }
}

fn exec_read_ipv4(s: &Vec<char>, i: usize) -> (r: Option<(u32, usize)>)
    requires
        i <= s.len(),
    ensures
        at_int(r) == read_ipv4(s@, i as int),
        r matches Some((_, e)) ==> e <= s.len(),
{
    let (a, p1) = match exec_read_octet(s, i) {
        None => return None,
        Some(x) => x,
    };
    let (b, p2) = match exec_read_dot_octet(s, p1) {
        None => return None,
        Some(x) => x,
    };
    let (c, p3) = match exec_read_dot_octet(s, p2) {
        None => return None,
        Some(x) => x,
    };
    let (d, p4) = match exec_read_dot_octet(s, p3) {
        None => return None,
        Some(x) => x,
    };
    let v: u32 = (a as u32) * 16777216 + (b as u32) * 65536 + (c as u32) * 256 + (d as u32);
    Some((v, p4))
}

fn exec_read_group(s: &Vec<char>, i: usize) -> (r: Option<(u16, usize)>)
    requires
        i <= s.len(),
    ensures
        at_int(r) == read_group(s@, i as int),
        r matches Some((_, e)) ==> e <= s.len(),
{
    proof {
        lemma_digit_run_ge(s@, i as int, true);
    }
    match read_digits(s, i, true, 4) {
        None => None,
        Some((v, e)) => Some((v as u16, e)),
    }
}

fn exec_read_groups(s: &Vec<char>, pos0: usize, limit: usize) -> (r: (Vec<u16>, bool, usize))
    requires
        pos0 <= s.len(),
        limit <= 8,
    ensures
        (r.0@, r.1, r.2 as int) == read_groups(s@, pos0 as int, 0, limit as nat, seq![]),
        r.2 <= s.len(),
        r.0.len() <= limit,
{
    let mut acc: Vec<u16> = Vec::new();
    let mut pos = pos0;
    let mut i: usize = 0;
    while i < limit
        invariant
            i <= limit <= 8,
            pos <= s.len(),
            acc.len() == i,
            read_groups(s@, pos0 as int, 0, limit as nat, seq![]) == read_groups(
                s@,
                pos as int,
                i as nat,
                limit as nat,
                acc@,
            ),
        decreases limit - i,
    {
        let start: Option<usize> = if i == 0 {
            Some(pos)
        } else if pos < s.len() && s[pos] == ':' {
            Some(pos + 1)
        } else {
            None
        };
        if i + 1 < limit {
            if let Some(q) = start {
                if let Some((a, e)) = exec_read_ipv4(s, q) {
                    let ghost old_acc = acc@;
                    acc.push((a / 65536) as u16);
                    acc.push((a % 65536) as u16);
                    assert(acc@ == old_acc + seq![(a / 65536) as u16, (a % 65536) as u16]);
                    return (acc, true, e);
                }
            }
        }
        match start {
            None => {
                return (acc, false, pos);
            },
            Some(q) => match exec_read_group(s, q) {
                None => {
                    return (acc, false, pos);
                },
                Some((g, e)) => {
                    acc.push(g);
                    pos = e;
                    i = i + 1;
                },
            },
        }
    }
    (acc, false, pos)
}

fn exec_read_ipv6(s: &Vec<char>, pos: usize) -> (r: Option<(Vec<u16>, usize)>)
    requires
        pos <= s.len(),
    ensures
        match r {
            Some((g, e)) => read_ipv6(s@, pos as int) == Some((g@, e as int)) && g.len() == 8,
            None => read_ipv6(s@, pos as int) is None,
        },
{
    let (head, head_v4, p) = exec_read_groups(s, pos, 8);
    if head.len() == 8 {
        return Some((head, p));
    }
    if head_v4 {
        return None;
    }
    if p < s.len() && p + 1 < s.len() && s[p] == ':' && s[p + 1] == ':' {
        let limit = 8 - (head.len() + 1);
        let (tail, _, q) = exec_read_groups(s, p + 2, limit);
        let zeros = 8 - head.len() - tail.len();
        let mut g = head;
        let ghost h = g@;
        let mut k: usize = 0;
        while k < zeros
            invariant
                k <= zeros,
                g@ == h + Seq::new(k as nat, |_k: int| 0u16),
            decreases zeros - k,
        {
            g.push(0u16);
            k = k + 1;
            assert(g@ =~= h + Seq::new(k as nat, |_k: int| 0u16));
        }
        let ghost mid = g@;
        let mut t = tail;
        g.append(&mut t);
        assert(g@ == mid + tail@);
        Some((g, q))
    } else {
        None
    }
}

/// `65536^n`.
pub open spec fn group_power(n: nat) -> nat
    decreases n,
{
    if n == 0 {
        1
    } else {
        group_power((n - 1) as nat) * 65536
    }
}

proof fn lemma_groups_value_bound(g: Seq<u16>)
    ensures
        groups_value(g) < group_power(g.len()),
    decreases g.len(),
{
    if g.len() > 0 {
        lemma_groups_value_bound(g.drop_last());
    }
}

/// The number that eight groups spell.
fn exec_groups_value(g: &Vec<u16>) -> (v: u128)
    requires
        g.len() == 8,
    ensures
        v as nat == groups_value(g@),
{
    let mut v: u128 = 0;
    let mut k: usize = 0;
    proof {
        reveal_with_fuel(group_power, 9);
    }
    while k < 8
        invariant
            k <= 8,
            g.len() == 8,
            v as nat == groups_value(g@.take(k as int)),
            group_power(7) * 65536 == 0x1_0000_0000_0000_0000_0000_0000_0000_0000,
        decreases 8 - k,
    {
        proof {
            lemma_groups_value_bound(g@.take(k as int));
            lemma_group_power_mono(k as nat, 7);
            assert(g@.take(k + 1).drop_last() == g@.take(k as int));
        }
        v = v * 65536 + g[k] as u128;
        k = k + 1;
    }
    assert(g@.take(8) == g@);
    v
}

proof fn lemma_group_power_mono(a: nat, b: nat)
    requires
        a <= b,
    ensures
        group_power(a) <= group_power(b),
    decreases b,
{
    if a < b {
        lemma_group_power_mono(a, (b - 1) as nat);
    }
}

/// Reads the address that the characters spell, as `IpAddr`'s `FromStr` does.
pub fn parse_ip_chars(text: &Vec<char>) -> (r: Option<IpValue>)
    ensures
        r == parse_ip(text@),
{
    match exec_read_ipv4(text, 0) {
        Some((a, e)) => {
            if e == text.len() {
                Some(IpValue::V4(a))
            } else {
                None
            }
        },
        None => match exec_read_ipv6(text, 0) {
            Some((g, e)) => {
                if e == text.len() {
                    let v = exec_groups_value(&g);
                    Some(IpValue::V6(v))
                } else {
                    None
                }
            },
            None => None,
        },
    }
}

/// Reads the address that `text` spells, as `IpAddr`'s `FromStr` does.
pub fn parse_ip_addr(text: &str) -> (r: Option<IpValue>)
    ensures
        r == parse_ip(text@),
{
    let chars = chars_of(text);
    parse_ip_chars(&chars)
}

// ---------------------------------------------------------------------
// Rendering
// ---------------------------------------------------------------------
/// Dotted-quad text of an IPv4 address.
pub open spec fn v4_text(a: u32) -> Seq<char> {
    decimal((a / 16777216) as nat) + seq!['.'] + decimal(((a / 65536) % 256) as nat) + seq!['.']
        + decimal(((a / 256) % 256) as nat) + seq!['.'] + decimal((a % 256) as nat)
}

/// The last `n` 16-bit groups of `v`, most significant first.
pub open spec fn split_groups(v: nat, n: nat) -> Seq<u16>
    decreases n,
{
    if n == 0 {
        seq![]
    } else {
        split_groups(v / 65536, (n - 1) as nat).push((v % 65536) as u16)
    }
}

/// The eight groups of an IPv6 address.
pub open spec fn groups_of(v: u128) -> Seq<u16> {
    split_groups(v as nat, 8)
}

/// Scans for the longest run of zero groups, keeping the first of equal
/// runs: `(cs, cl)` is the current run, `(bs, bl)` the best so far.
pub open spec fn zero_span(g: Seq<u16>, i: int, cs: int, cl: int, bs: int, bl: int) -> (int, int)
    decreases g.len() - i,
{
    if i < 0 || i >= g.len() {
        (bs, bl)
    } else if g[i] == 0 {
        let ns = if cl == 0 {
            i
        } else {
            cs
        };
        if cl + 1 > bl {
            zero_span(g, i + 1, ns, cl + 1, ns, cl + 1)
        } else {
            zero_span(g, i + 1, ns, cl + 1, bs, bl)
        }
    } else {
        zero_span(g, i + 1, 0, 0, bs, bl)
    }
}

/// Start and length of the first longest run of zero groups.
pub open spec fn longest_zero_run(g: Seq<u16>) -> (int, int) {
    zero_span(g, 0, 0, 0, 0, 0)
}

/// Groups in hexadecimal, separated by `':'`.
pub open spec fn join_hex(g: Seq<u16>) -> Seq<char>
    decreases g.len(),
{
    if g.len() == 0 {
        seq![]
    } else if g.len() == 1 {
        hexadecimal(g[0] as nat)
    } else {
        join_hex(g.drop_last()) + seq![':'] + hexadecimal(g.last() as nat)
    }
}

/// Whether the groups are an IPv4-mapped address (`::ffff:a.b.c.d`).
pub open spec fn is_v4_mapped(g: Seq<u16>) -> bool {
    &&& g.len() == 8
    &&& g[0] == 0 && g[1] == 0 && g[2] == 0 && g[3] == 0 && g[4] == 0
    &&& g[5] == 0xffff
}

/// Text of an IPv6 address: an IPv4-mapped address as `::ffff:` and a dotted
/// quad; otherwise lowercase hexadecimal groups with the first longest run of
/// two or more zero groups written as `::`.
pub open spec fn v6_text(v: u128) -> Seq<char> {
    let g = groups_of(v);
    if is_v4_mapped(g) {
        "::ffff:"@ + v4_text((g[6] as nat * 65536 + g[7] as nat) as u32)
    } else {
        let (start, len) = longest_zero_run(g);
        if len > 1 {
            join_hex(g.subrange(0, start)) + "::"@ + join_hex(g.subrange(start + len, 8))
        } else {
            join_hex(g)
        }
    }
}

/// The text that `Display` gives for an address.
pub open spec fn ip_text(ip: IpValue) -> Seq<char> {
    match ip {
        IpValue::V4(a) => v4_text(a),
        IpValue::V6(v) => v6_text(v),
    }
}

fn push_v4(out: &mut Vec<char>, a: u32)
    ensures
        final(out)@ == old(out)@ + v4_text(a),
{
    let ghost o = out@;
    push_decimal(out, (a / 16777216) as u64);
    out.push('.');
    push_decimal(out, ((a / 65536) % 256) as u64);
    out.push('.');
    push_decimal(out, ((a / 256) % 256) as u64);
    out.push('.');
    push_decimal(out, (a % 256) as u64);
    assert(out@ =~= o + v4_text(a));
}

fn exec_split_groups(v: u128, n: usize) -> (g: Vec<u16>)
    ensures
        g@ == split_groups(v as nat, n as nat),
    decreases n,
{
    if n == 0 {
        Vec::new()
    } else {
        let mut g = exec_split_groups(v / 65536, n - 1);
        g.push((v % 65536) as u16);
        g
    }
}

proof fn lemma_split_groups_len(v: nat, n: nat)
    ensures
        split_groups(v, n).len() == n,
    decreases n,
{
    if n > 0 {
        lemma_split_groups_len(v / 65536, (n - 1) as nat);
    }
}

/// Appends `join_hex(g[from..to])`.
fn push_join_hex(out: &mut Vec<char>, g: &Vec<u16>, from: usize, to: usize)
    requires
        from <= to <= g.len(),
    ensures
        final(out)@ == old(out)@ + join_hex(g@.subrange(from as int, to as int)),
{
    let ghost o = out@;
    let mut k = from;
    while k < to
        invariant
            from <= k <= to <= g.len(),
            out@ == o + join_hex(g@.subrange(from as int, k as int)),
        decreases to - k,
    {
        let ghost before = out@;
        if k > from {
            out.push(':');
        }
        push_hex(out, g[k] as u64);
        proof {
            let sub = g@.subrange(from as int, (k + 1) as int);
            assert(sub.drop_last() =~= g@.subrange(from as int, k as int));
            if k > from {
                assert(join_hex(sub) == join_hex(sub.drop_last()) + seq![':'] + hexadecimal(
                    g@[k as int] as nat,
                ));
                assert(out@ =~= o + join_hex(sub));
            } else {
                assert(g@.subrange(from as int, k as int).len() == 0);
                assert(out@ =~= o + join_hex(sub));
            }
        }
        k = k + 1;
    }
}

fn push_v6(out: &mut Vec<char>, v: u128)
    ensures
        final(out)@ == old(out)@ + v6_text(v),
{
    let g = exec_split_groups(v, 8);
    proof {
        lemma_split_groups_len(v as nat, 8);
    }
    if g[0] == 0 && g[1] == 0 && g[2] == 0 && g[3] == 0 && g[4] == 0 && g[5] == 0xffff {
        push_str(out, "::ffff:");
        push_v4(out, (g[6] as u32) * 65536 + g[7] as u32);
        return ;
    }
    let mut i: usize = 0;
    let mut cs: usize = 0;
    let mut cl: usize = 0;
    let mut bs: usize = 0;
    let mut bl: usize = 0;
    while i < 8
        invariant
            g.len() == 8,
            i <= 8,
            bs + bl <= i,
            cl > 0 ==> cs + cl == i,
            cl <= i,
            longest_zero_run(g@) == zero_span(
                g@,
                i as int,
                cs as int,
                cl as int,
                bs as int,
                bl as int,
            ),
        decreases 8 - i,
    {
        if g[i] == 0 {
            let ns = if cl == 0 {
                i
            } else {
                cs
            };
            if cl + 1 > bl {
                bs = ns;
                bl = cl + 1;
            }
            cs = ns;
            cl = cl + 1;
        } else {
            cs = 0;
            cl = 0;
        }
        i = i + 1;
    }
    if bl > 1 {
        let ghost o = out@;
        push_join_hex(out, &g, 0, bs);
        push_str(out, "::");
        push_join_hex(out, &g, bs + bl, 8);
        assert(out@ =~= o + v6_text(v));
    } else {
        assert(g@.subrange(0, 8) == g@);
        push_join_hex(out, &g, 0, 8);
    }
}

/// Appends the text that `Display` gives for the address.
pub fn push_ip(out: &mut Vec<char>, ip: IpValue)
    ensures
        final(out)@ == old(out)@ + ip_text(ip),
{
    match ip {
        IpValue::V4(a) => push_v4(out, a),
        IpValue::V6(v) => push_v6(out, v),
    }
}

/// The text that `Display` gives for the address.
pub fn ip_to_string(ip: IpValue) -> (s: String)
    ensures
        s@ == ip_text(ip),
{
    let mut out: Vec<char> = Vec::new();
    push_ip(&mut out, ip);
    assert(out@ =~= ip_text(ip));
    vec_to_string(&out)
}

// ---------------------------------------------------------------------
// Netmasks
// ---------------------------------------------------------------------
/// Bit width of the address family.
pub open spec fn ip_width(ip: IpValue) -> nat {
    match ip {
        IpValue::V4(_) => 32,
        IpValue::V6(_) => 128,
    }
}

/// The address as a number.
pub open spec fn ip_bits(ip: IpValue) -> nat {
    match ip {
        IpValue::V4(a) => a as nat,
        IpValue::V6(v) => v as nat,
    }
}

/// The `width`-bit netmask whose first `n` bits are set.
pub open spec fn mask_value(width: nat, n: nat) -> int {
    pow2(width) - pow2((width - n) as nat)
}

/// Whether `mask` is the contiguous netmask of prefix length `n`.
pub open spec fn is_netmask_of(mask: IpValue, n: nat) -> bool {
    n <= ip_width(mask) && ip_bits(mask) == mask_value(ip_width(mask), n)
}

/// The prefix length of a contiguous netmask; `None` for any other address.
pub open spec fn netmask_prefix(mask: IpValue) -> Option<nat> {
    if exists|n: nat| is_netmask_of(mask, n) {
        Some(choose|n: nat| is_netmask_of(mask, n))
    } else {
        None
    }
}

/// A netmask has one prefix length.
pub proof fn lemma_netmask_unique(mask: IpValue, n1: nat, n2: nat)
    requires
        is_netmask_of(mask, n1),
        is_netmask_of(mask, n2),
    ensures
        n1 == n2,
{
    let w = ip_width(mask);
    if n1 < n2 {
        lemma_pow2_strictly_increases((w - n2) as nat, (w - n1) as nat);
    } else if n2 < n1 {
        lemma_pow2_strictly_increases((w - n1) as nat, (w - n2) as nat);
    }
}

/// The netmask of prefix length `n` is read back as `n`.
pub proof fn law_netmask_prefix_of_mask(mask: IpValue, n: nat)
    requires
        n <= ip_width(mask),
        ip_bits(mask) == mask_value(ip_width(mask), n),
    ensures
        netmask_prefix(mask) == Some(n),
{
    assert(is_netmask_of(mask, n));
    let m = choose|m: nat| is_netmask_of(mask, m);
    lemma_netmask_unique(mask, m, n);
}

proof fn lemma_half_hostmask(k: nat)
    requires
        k >= 1,
    ensures
        (pow2(k) - 1) / 2 == pow2((k - 1) as nat) - 1,
        pow2((k - 1) as nat) >= 1,
{
    lemma_pow2_unfold(k);
    vstd::arithmetic::power2::lemma_pow2_pos((k - 1) as nat);
}

/// The sizes of the two address spaces.
pub proof fn lemma_pow2_128()
    ensures
        pow2(32) == 0x1_0000_0000,
        pow2(128) == 0x1_0000_0000_0000_0000_0000_0000_0000_0000,
{
    lemma2_to64();
    lemma_pow2_adds(64, 64);
}

/// The prefix length of a contiguous netmask (`255.255.255.0` gives 24,
/// `0.0.0.0` gives 0); `None` when the set bits are not contiguous from the
/// top.
pub fn netmask_prefix_len(mask: IpValue) -> (r: Option<u8>)
    ensures
        match r {
            Some(p) => netmask_prefix(mask) == Some(p as nat),
            None => netmask_prefix(mask) is None,
        },
{
    proof {
        lemma_pow2_128();
    }
    match mask {
        IpValue::V4(b) => {
            let full: u64 = 0xffff_ffff;
            let mut h: u64 = 0xffff_ffff;
            let mut n: u8 = 0;
            loop
                invariant
                    n <= 32,
                    h as nat == pow2((32 - n) as nat) - 1,
                    h <= full,
                    full == 0xffff_ffff,
                    pow2(32) == 0x1_0000_0000,
                    forall|m: nat| m < n ==> !is_netmask_of(mask, m),
                    mask == IpValue::V4(b),
                decreases 32 - n,
            {
                if full - h == b as u64 {
                    proof {
                        assert(is_netmask_of(mask, n as nat));
                        let c = choose|m: nat| is_netmask_of(mask, m);
                        lemma_netmask_unique(mask, c, n as nat);
                    }
                    return Some(n);
                }
                if n == 32 {
                    proof {
                        assert forall|m: nat| !is_netmask_of(mask, m) by {
                            if m < n {
                            } else if m == n {
                            }
                        }
                    }
                    return None;
                }
                proof {
                    lemma_half_hostmask((32 - n) as nat);
                }
                h = h / 2;
                n = n + 1;
            }
        },
        IpValue::V6(b) => {
            let full: u128 = 0xffff_ffff_ffff_ffff_ffff_ffff_ffff_ffff;
            let mut h: u128 = 0xffff_ffff_ffff_ffff_ffff_ffff_ffff_ffff;
            let mut n: u8 = 0;
            loop
                invariant
                    n <= 128,
                    h as nat == pow2((128 - n) as nat) - 1,
                    h <= full,
                    full == 0xffff_ffff_ffff_ffff_ffff_ffff_ffff_ffff,
                    pow2(128) == 0x1_0000_0000_0000_0000_0000_0000_0000_0000,
                    forall|m: nat| m < n ==> !is_netmask_of(mask, m),
                    mask == IpValue::V6(b),
                decreases 128 - n,
            {
                if full - h == b {
                    proof {
                        assert(is_netmask_of(mask, n as nat));
                        let c = choose|m: nat| is_netmask_of(mask, m);
                        lemma_netmask_unique(mask, c, n as nat);
                    }
                    return Some(n);
                }
                if n == 128 {
                    proof {
                        assert forall|m: nat| !is_netmask_of(mask, m) by {
                            if m < n {
                            } else if m == n {
                            }
                        }
                    }
                    return None;
                }
                proof {
                    lemma_half_hostmask((128 - n) as nat);
                }
                h = h / 2;
                n = n + 1;
            }
        },
    }
}

} // verus!
