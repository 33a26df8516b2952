//! The `hba-reject-all` check: pg_hba.conf ends with reject-all rules.
use vstd::prelude::*;
use crate::checks::pghba::{entry_views, is_host_type_spec, opt_view, HbaEntry, HbaEntryView};
use crate::output::{plain_result, string_views, CheckResult, CheckResultView, Severity};
use crate::text::{chars_eq_str, chars_of, decimal, push_decimal, push_str, vec_to_string};

verus! {

/// Check that pg_hba.conf ends with reject-all rules for IPv4 and IPv6.
///
/// Deny-all posture: after the explicit allow rules, the final host rules
/// must reject everything else. Any host entry after the reject-all rules
/// is unreachable and reported.
pub struct HbaRejectAllCheck;

/// The host-type entries, in order.
pub open spec fn host_entries(s: Seq<HbaEntryView>) -> Seq<HbaEntryView>
    decreases s.len(),
{
    if s.len() == 0 {
        seq![]
    } else {
        let h = host_entries(s.drop_last());
        if is_host_type_spec(s.last().entry_type) {
            h.push(s.last())
        } else {
            h
        }
    }
}

/// `reject` for all databases and users from the given wildcard address.
pub open spec fn is_reject_all(e: HbaEntryView, wildcard: Seq<char>) -> bool {
    &&& e.method == "reject"@
    &&& e.database == "all"@
    &&& e.user == "all"@
    &&& e.address == Some(wildcard)
}

/// Index of the last reject-all rule for the wildcard, if any.
pub open spec fn last_reject_all(h: Seq<HbaEntryView>, wildcard: Seq<char>) -> Option<int>
    decreases h.len(),
{
    if h.len() == 0 {
        None
    } else if is_reject_all(h.last(), wildcard) {
        Some(h.len() - 1)
    } else {
        last_reject_all(h.drop_last(), wildcard)
    }
}

pub open spec fn missing_v4_note() -> Seq<char> {
    "No 'host all all 0.0.0.0/0 reject' rule found"@
}

pub open spec fn missing_v6_note() -> Seq<char> {
    "No 'host all all ::/0 reject' rule found"@
}

/// The problem reported for a host entry that follows a reject-all rule.
pub open spec fn unreachable_note(e: HbaEntryView) -> Seq<char> {
    e.source + ":"@ + decimal(e.line) + ": entry after reject-all is unreachable ("@ + e.database
        + " "@ + e.user + " "@ + e.method + ")"@
}

/// A reject-all rule for either address family.
pub open spec fn is_any_reject_all(e: HbaEntryView) -> bool {
    is_reject_all(e, "0.0.0.0/0"@) || is_reject_all(e, "::/0"@)
}

/// Whether some rule of `h` is a reject-all rule.
pub open spec fn has_reject_all(h: Seq<HbaEntryView>) -> bool
    decreases h.len(),
{
    h.len() > 0 && (has_reject_all(h.drop_last()) || is_any_reject_all(h.last()))
}

/// A note for each host rule that follows a reject-all rule without being
/// one itself: such a rule can never match.
pub open spec fn unreachable_notes(h: Seq<HbaEntryView>) -> Seq<Seq<char>>
    decreases h.len(),
{
    if h.len() == 0 {
        seq![]
    } else {
        let r = unreachable_notes(h.drop_last());
        if has_reject_all(h.drop_last()) && !is_any_reject_all(h.last()) {
            r.push(unreachable_note(h.last()))
        } else {
            r
        }
    }
}

/// The problems with the reject-all posture: a note for each missing
/// reject-all rule (IPv4 first), then one for each host rule after the first
/// reject-all rule that is not itself one. Empty means the deny-all posture
/// is in place.
pub open spec fn reject_all_problems(entries: Seq<HbaEntryView>) -> Seq<Seq<char>> {
    let h = host_entries(entries);
    let v4 = last_reject_all(h, "0.0.0.0/0"@);
    let v6 = last_reject_all(h, "::/0"@);
    (if v4 is None {
        seq![missing_v4_note()]
    } else {
        seq![]
    }) + (if v6 is None {
        seq![missing_v6_note()]
    } else {
        seq![]
    }) + unreachable_notes(h)
}

proof fn lemma_last_reject_all_bounds(h: Seq<HbaEntryView>, w: Seq<char>)
    ensures
        last_reject_all(h, w) matches Some(k) ==> 0 <= k < h.len() && is_reject_all(h[k], w),
    decreases h.len(),
{
    if h.len() > 0 {
        lemma_last_reject_all_bounds(h.drop_last(), w);
    }
}

proof fn lemma_last_reject_all_max(h: Seq<HbaEntryView>, w: Seq<char>, i: int)
    requires
        0 <= i < h.len(),
        is_reject_all(h[i], w),
    ensures
        last_reject_all(h, w) matches Some(k) && i <= k,
    decreases h.len(),
{
    if !is_reject_all(h.last(), w) {
        assert(h.drop_last()[i] == h[i]);
        lemma_last_reject_all_max(h.drop_last(), w, i);
    }
}

proof fn lemma_has_reject_all(h: Seq<HbaEntryView>)
    ensures
        has_reject_all(h) <==> exists|i: int| 0 <= i < h.len() && is_any_reject_all(#[trigger] h[i]),
    decreases h.len(),
{
    if h.len() > 0 {
        let init = h.drop_last();
        lemma_has_reject_all(init);
        if has_reject_all(init) {
            let i = choose|i: int| 0 <= i < init.len() && is_any_reject_all(#[trigger] init[i]);
            assert(h[i] == init[i]);
        }
        if is_any_reject_all(h.last()) {
            assert(is_any_reject_all(h[h.len() - 1]));
        }
        if exists|i: int| 0 <= i < h.len() && is_any_reject_all(#[trigger] h[i]) {
            let i = choose|i: int| 0 <= i < h.len() && is_any_reject_all(#[trigger] h[i]);
            if i < h.len() - 1 {
                assert(init[i] == h[i]);
            }
        }
    }
}

/// Whether every rule of `h` that follows a reject-all rule is one too.
pub open spec fn reject_all_final(h: Seq<HbaEntryView>) -> bool {
    forall|i: int, k: int|
        0 <= i < k < h.len() && is_any_reject_all(#[trigger] h[i]) ==> is_any_reject_all(
            #[trigger] h[k],
        )
}

proof fn lemma_no_unreachable(h: Seq<HbaEntryView>)
    ensures
        unreachable_notes(h).len() == 0 <==> reject_all_final(h),
    decreases h.len(),
{
    if h.len() > 0 {
        let init = h.drop_last();
        lemma_no_unreachable(init);
        lemma_has_reject_all(init);
        if unreachable_notes(h).len() == 0 {
            assert forall|i: int, k: int|
                0 <= i < k < h.len() && is_any_reject_all(#[trigger] h[i]) implies is_any_reject_all(
                #[trigger] h[k],
            ) by {
                assert(init[i] == h[i]);
                if k < h.len() - 1 {
                    assert(init[k] == h[k]);
                    assert(reject_all_final(init));
                    assert(is_any_reject_all(init[i]) ==> is_any_reject_all(init[k]));
                } else {
                    assert(has_reject_all(init));
                }
            }
        }
        if reject_all_final(h) {
            assert forall|i: int, k: int|
                0 <= i < k < init.len() && is_any_reject_all(#[trigger] init[i]) implies is_any_reject_all(
                #[trigger] init[k],
            ) by {
                assert(init[i] == h[i] && init[k] == h[k]);
            }
            if has_reject_all(init) {
                let i = choose|i: int| 0 <= i < init.len() && is_any_reject_all(#[trigger] init[i]);
                assert(h[i] == init[i]);
                assert(is_any_reject_all(h[h.len() - 1]));
            }
        }
    }
}

proof fn lemma_last_reject_all_none(h: Seq<HbaEntryView>, w: Seq<char>)
    ensures
        last_reject_all(h, w) is None <==> !exists|i: int| 0 <= i < h.len() && is_reject_all(#[trigger] h[i], w),
{
    lemma_last_reject_all_bounds(h, w);
    if exists|i: int| 0 <= i < h.len() && is_reject_all(#[trigger] h[i], w) {
        let i = choose|i: int| 0 <= i < h.len() && is_reject_all(#[trigger] h[i], w);
        lemma_last_reject_all_max(h, w, i);
    }
}

/// The deny-all posture holds exactly when the host rules include a
/// `reject` rule for all databases and users from `0.0.0.0/0` and one from
/// `::/0`, and every host rule after the first reject-all rule is itself a
/// reject-all rule: the reject-all rules are the final host rules, and no
/// host rule is left unreachable behind them.
pub proof fn law_reject_all_posture(entries: Seq<HbaEntryView>)
    ensures
        reject_all_result(entries).passed <==> ({
            let h = host_entries(entries);
            &&& exists|i: int| 0 <= i < h.len() && is_reject_all(#[trigger] h[i], "0.0.0.0/0"@)
            &&& exists|j: int| 0 <= j < h.len() && is_reject_all(#[trigger] h[j], "::/0"@)
            &&& reject_all_final(h)
        }),
        reject_all_result(entries).severity == Severity::High,
{
    let h = host_entries(entries);
    lemma_last_reject_all_none(h, "0.0.0.0/0"@);
    lemma_last_reject_all_none(h, "::/0"@);
    lemma_no_unreachable(h);
}

/// Whether `e` is a host rule of `s`.
spec fn host_rule_of(s: Seq<HbaEntryView>, e: HbaEntryView) -> bool {
    exists|i: int| 0 <= i < s.len() && #[trigger] s[i] == e && is_host_type_spec(s[i].entry_type)
}

proof fn lemma_host_entries_from(s: Seq<HbaEntryView>)
    ensures
        forall|j: int| 0 <= j < host_entries(s).len() ==> host_rule_of(s, #[trigger] host_entries(s)[j]),
    decreases s.len(),
{
    if s.len() > 0 {
        let init = s.drop_last();
        lemma_host_entries_from(init);
        let h0 = host_entries(init);
        let h = host_entries(s);
        assert forall|j: int| 0 <= j < h.len() implies host_rule_of(s, #[trigger] h[j]) by {
            if j < h0.len() {
                assert(h[j] == h0[j]);
                assert(host_rule_of(init, h0[j]));
                let i = choose|i: int|
                    0 <= i < init.len() && #[trigger] init[i] == h0[j] && is_host_type_spec(
                        init[i].entry_type,
                    );
                assert(s[i] == init[i]);
            } else {
                assert(h[j] == s[s.len() - 1]);
            }
        }
    }
}

/// The check passes only if, among the host rules (connection types that
/// begin with `host`), one rejects every database and every user from
/// `0.0.0.0/0` and one does from `::/0`: a reject rule for some user or
/// some database only is no reject-all rule.
pub proof fn law_reject_all_rules_required(entries: Seq<HbaEntryView>)
    ensures
        reject_all_result(entries).passed ==> {
            &&& exists|i: int|
                0 <= i < entries.len() && {
                    let e = #[trigger] entries[i];
                    &&& e.entry_type.len() >= 4
                    &&& e.entry_type.subrange(0, 4) == "host"@
                    &&& e.method == "reject"@
                    &&& e.database == "all"@
                    &&& e.user == "all"@
                    &&& e.address == Some("0.0.0.0/0"@)
                }
            &&& exists|i: int|
                0 <= i < entries.len() && {
                    let e = #[trigger] entries[i];
                    &&& e.entry_type.len() >= 4
                    &&& e.entry_type.subrange(0, 4) == "host"@
                    &&& e.method == "reject"@
                    &&& e.database == "all"@
                    &&& e.user == "all"@
                    &&& e.address == Some("::/0"@)
                }
        },
{
    reveal_strlit("host");
    let h = host_entries(entries);
    lemma_host_entries_from(entries);
    lemma_last_reject_all_bounds(h, "0.0.0.0/0"@);
    lemma_last_reject_all_bounds(h, "::/0"@);
    if reject_all_result(entries).passed {
        let a = last_reject_all(h, "0.0.0.0/0"@)->0;
        let b = last_reject_all(h, "::/0"@)->0;
        assert(host_rule_of(entries, h[a]));
        assert(host_rule_of(entries, h[b]));
        let i = choose|i: int|
            0 <= i < entries.len() && #[trigger] entries[i] == h[a] && is_host_type_spec(
                entries[i].entry_type,
            );
        let j = choose|j: int|
            0 <= j < entries.len() && #[trigger] entries[j] == h[b] && is_host_type_spec(
                entries[j].entry_type,
            );
        assert(entries[i].entry_type.subrange(0, 4) == "host"@);
        assert(entries[j].entry_type.subrange(0, 4) == "host"@);
    }
}

/// The positions of the host rules of `s`, in order: each holds the host
/// rule of the same rank, and every host rule of `s` has its position.
proof fn host_index(s: Seq<HbaEntryView>) -> (idx: Seq<int>)
    ensures
        idx.len() == host_entries(s).len(),
        forall|j: int|
            0 <= j < idx.len() ==> 0 <= #[trigger] idx[j] < s.len() && s[idx[j]] == host_entries(
                s,
            )[j] && is_host_type_spec(s[idx[j]].entry_type),
        forall|j: int, l: int| 0 <= j < l < idx.len() ==> #[trigger] idx[j] < #[trigger] idx[l],
        forall|i: int|
            0 <= i < s.len() && is_host_type_spec(#[trigger] s[i].entry_type) ==> exists|j: int|
                0 <= j < idx.len() && #[trigger] idx[j] == i,
    decreases s.len(),
{
    if s.len() == 0 {
        seq![]
    } else {
        let init = s.drop_last();
        let idx0 = host_index(init);
        let h0 = host_entries(init);
        let n = s.len() - 1;
        assert forall|j: int| 0 <= j < idx0.len() implies s[idx0[j]] == init[idx0[j]] by {}
        if is_host_type_spec(s.last().entry_type) {
            let idx = idx0.push(n);
            assert(host_entries(s) == h0.push(s.last()));
            assert forall|j: int| 0 <= j < idx.len() implies 0 <= #[trigger] idx[j] < s.len()
                && s[idx[j]] == host_entries(s)[j] && is_host_type_spec(s[idx[j]].entry_type) by {
                if j < idx0.len() {
                    assert(idx[j] == idx0[j]);
                }
            }
            assert forall|j: int, l: int| 0 <= j < l < idx.len() implies #[trigger] idx[j]
                < #[trigger] idx[l] by {
                if l < idx0.len() {
                    assert(idx[j] == idx0[j] && idx[l] == idx0[l]);
                } else {
                    assert(idx[j] == idx0[j]);
                }
            }
            assert forall|i: int|
                0 <= i < s.len() && is_host_type_spec(#[trigger] s[i].entry_type) implies exists|
                j: int,
            | 0 <= j < idx.len() && #[trigger] idx[j] == i by {
                if i < n {
                    assert(init[i] == s[i]);
                    let j = choose|j: int| 0 <= j < idx0.len() && #[trigger] idx0[j] == i;
                    assert(idx[j] == i);
                } else {
                    assert(idx[idx0.len() as int] == i);
                }
            }
            idx
        } else {
            assert(host_entries(s) == h0);
            assert forall|i: int|
                0 <= i < s.len() && is_host_type_spec(#[trigger] s[i].entry_type) implies exists|
                j: int,
            | 0 <= j < idx0.len() && #[trigger] idx0[j] == i by {
                assert(i < n);
                assert(init[i] == s[i]);
            }
            idx0
        }
    }
}

/// A host rule: its connection type begins with `host`.
pub open spec fn is_host_rule(e: HbaEntryView) -> bool {
    e.entry_type.len() >= 4 && e.entry_type.subrange(0, 4) == "host"@
}

/// The rule rejects every database and every user from the address `w`.
pub open spec fn rejects_everyone_from(e: HbaEntryView, w: Seq<char>) -> bool {
    e.method == "reject"@ && e.database == "all"@ && e.user == "all"@ && e.address == Some(w)
}

/// The deny-all posture over the rules as written: the check passes iff a
/// host rule rejects every database and user from `0.0.0.0/0`, one does from
/// `::/0`, and every host rule after such a rule is itself one (so no host
/// rule is unreachable behind them). A rule that rejects only some user or
/// database, and any `local` rule, never counts.
pub proof fn law_reject_all_as_written(entries: Seq<HbaEntryView>)
    ensures
        reject_all_result(entries).passed <==> {
            &&& exists|i: int|
                0 <= i < entries.len() && is_host_rule(#[trigger] entries[i])
                    && rejects_everyone_from(entries[i], "0.0.0.0/0"@)
            &&& exists|i: int|
                0 <= i < entries.len() && is_host_rule(#[trigger] entries[i])
                    && rejects_everyone_from(entries[i], "::/0"@)
            &&& forall|i: int, k: int|
                0 <= i < k < entries.len() && is_host_rule(#[trigger] entries[i]) && (
                rejects_everyone_from(entries[i], "0.0.0.0/0"@) || rejects_everyone_from(
                    entries[i],
                    "::/0"@,
                )) && is_host_rule(#[trigger] entries[k]) ==> rejects_everyone_from(
                    entries[k],
                    "0.0.0.0/0"@,
                ) || rejects_everyone_from(entries[k], "::/0"@)
        },
{
    reveal_strlit("host");
    let h = host_entries(entries);
    let idx = host_index(entries);
    law_reject_all_posture(entries);
    assert forall|e: HbaEntryView| #[trigger] is_host_rule(e) <==> is_host_type_spec(e.entry_type) by {}
    let v4 = exists|i: int|
        0 <= i < entries.len() && is_host_rule(#[trigger] entries[i]) && rejects_everyone_from(
            entries[i],
            "0.0.0.0/0"@,
        );
    let v6 = exists|i: int|
        0 <= i < entries.len() && is_host_rule(#[trigger] entries[i]) && rejects_everyone_from(
            entries[i],
            "::/0"@,
        );
    let h4 = exists|j: int| 0 <= j < h.len() && is_reject_all(#[trigger] h[j], "0.0.0.0/0"@);
    let h6 = exists|j: int| 0 <= j < h.len() && is_reject_all(#[trigger] h[j], "::/0"@);
    if h4 {
        let j = choose|j: int| 0 <= j < h.len() && is_reject_all(#[trigger] h[j], "0.0.0.0/0"@);
        assert(entries[idx[j]] == h[j]);
        assert(is_host_rule(entries[idx[j]]));
    }
    if v4 {
        let i = choose|i: int|
            0 <= i < entries.len() && is_host_rule(#[trigger] entries[i]) && rejects_everyone_from(
                entries[i],
                "0.0.0.0/0"@,
            );
        assert(is_host_type_spec(entries[i].entry_type));
        let j = choose|j: int| 0 <= j < idx.len() && #[trigger] idx[j] == i;
        assert(h[j] == entries[i]);
    }
    if h6 {
        let j = choose|j: int| 0 <= j < h.len() && is_reject_all(#[trigger] h[j], "::/0"@);
        assert(entries[idx[j]] == h[j]);
        assert(is_host_rule(entries[idx[j]]));
    }
    if v6 {
        let i = choose|i: int|
            0 <= i < entries.len() && is_host_rule(#[trigger] entries[i]) && rejects_everyone_from(
                entries[i],
                "::/0"@,
            );
        assert(is_host_type_spec(entries[i].entry_type));
        let j = choose|j: int| 0 <= j < idx.len() && #[trigger] idx[j] == i;
        assert(h[j] == entries[i]);
    }
    let fin = forall|i: int, k: int|
        0 <= i < k < entries.len() && is_host_rule(#[trigger] entries[i]) && (
        rejects_everyone_from(entries[i], "0.0.0.0/0"@) || rejects_everyone_from(
            entries[i],
            "::/0"@,
        )) && is_host_rule(#[trigger] entries[k]) ==> rejects_everyone_from(
            entries[k],
            "0.0.0.0/0"@,
        ) || rejects_everyone_from(entries[k], "::/0"@);
    if reject_all_final(h) {
        assert forall|i: int, k: int|
            0 <= i < k < entries.len() && is_host_rule(#[trigger] entries[i]) && (
            rejects_everyone_from(entries[i], "0.0.0.0/0"@) || rejects_everyone_from(
                entries[i],
                "::/0"@,
            )) && is_host_rule(#[trigger] entries[k]) implies rejects_everyone_from(
            entries[k],
            "0.0.0.0/0"@,
        ) || rejects_everyone_from(entries[k], "::/0"@) by {
            assert(is_host_type_spec(entries[i].entry_type));
            assert(is_host_type_spec(entries[k].entry_type));
            let p = choose|j: int| 0 <= j < idx.len() && #[trigger] idx[j] == i;
            let q = choose|j: int| 0 <= j < idx.len() && #[trigger] idx[j] == k;
            if q <= p {
                if q < p {
                    assert(idx[q] < idx[p]);
                }
            }
            assert(p < q);
            assert(h[p] == entries[i] && h[q] == entries[k]);
            assert(is_any_reject_all(h[p]));
        }
    }
    if fin {
        assert forall|p: int, q: int|
            0 <= p < q < h.len() && is_any_reject_all(#[trigger] h[p]) implies is_any_reject_all(
            #[trigger] h[q],
        ) by {
            let i = idx[p];
            let k = idx[q];
            assert(idx[p] < idx[q]);
            assert(entries[i] == h[p] && entries[k] == h[q]);
            assert(is_host_rule(entries[i]) && is_host_rule(entries[k]));
        }
    }
}

fn reject_all_from(e: &HbaEntry, v6: bool) -> (b: bool)
    ensures
        b == is_reject_all(e@, if v6 {
            "::/0"@
        } else {
            "0.0.0.0/0"@
        }),
{
    let wild = if v6 {
        e.is_ipv6_wildcard()
    } else {
        e.is_ipv4_wildcard()
    };
    wild && chars_eq_str(&chars_of(e.method.as_str()), "reject") && chars_eq_str(
        &chars_of(e.database.as_str()),
        "all",
    ) && chars_eq_str(&chars_of(e.user.as_str()), "all")
}

fn unreachable_string(e: &HbaEntry) -> (s: String)
    ensures
        s@ == unreachable_note(e@),
{
    let mut m: Vec<char> = Vec::new();
    push_str(&mut m, e.source.as_str());
    push_str(&mut m, ":");
    push_decimal(&mut m, e.line as u64);
    push_str(&mut m, ": entry after reject-all is unreachable (");
    push_str(&mut m, e.database.as_str());
    push_str(&mut m, " ");
    push_str(&mut m, e.user.as_str());
    push_str(&mut m, " ");
    push_str(&mut m, e.method.as_str());
    push_str(&mut m, ")");
    vec_to_string(&m)
}

/// Positions of the host-type entries.
fn host_positions(entries: &Vec<HbaEntry>) -> (idx: Vec<usize>)
    ensures
        idx@.map_values(|j: usize| entry_views(entries@)[j as int]) == host_entries(
            entry_views(entries@),
        ),
        forall|p: int| 0 <= p < idx.len() ==> #[trigger] idx@[p] < entries.len(),
{
    let ghost ev = entry_views(entries@);
    let mut idx: Vec<usize> = Vec::new();
    let mut k: usize = 0;
    while k < entries.len()
        invariant
            k <= entries.len(),
            ev == entry_views(entries@),
            idx@.map_values(|j: usize| ev[j as int]) == host_entries(ev.take(k as int)),
            forall|p: int| 0 <= p < idx.len() ==> #[trigger] idx@[p] < k,
        decreases entries.len() - k,
    {
        proof {
            assert(ev.take(k + 1).drop_last() == ev.take(k as int));
        }
        let ghost before = idx@;
        if entries[k].is_host_type() {
            idx.push(k);
            assert(idx@.map_values(|j: usize| ev[j as int]) == before.map_values(
                |j: usize| ev[j as int],
            ).push(ev[k as int]));
        }
        k = k + 1;
    }
    assert(ev.take(entries.len() as int) == ev);
    idx
}

/// Assess host-type entries for reject-all coverage. Returns a list of
/// problems; empty means the deny-all posture is in place.
pub fn analyze_reject_all(entries: &Vec<HbaEntry>) -> (problems: Vec<String>)
    ensures
        string_views(problems@) == reject_all_problems(entry_views(entries@)),
{
    let ghost ev = entry_views(entries@);
    let idx = host_positions(entries);
    let ghost h = host_entries(ev);
    let m = idx.len();
    assert(h.len() == m);
    let mut last_v4: Option<usize> = None;
    let mut last_v6: Option<usize> = None;
    let mut seen: bool = false;
    let mut late: Vec<String> = Vec::new();
    let mut p: usize = 0;
    while p < m
        invariant
            p <= m,
            m == idx.len(),
            h.len() == m,
            h == idx@.map_values(|j: usize| ev[j as int]),
            ev == entry_views(entries@),
            forall|q: int| 0 <= q < idx.len() ==> #[trigger] idx@[q] < entries.len(),
            match last_v4 {
                Some(x) => last_reject_all(h.take(p as int), "0.0.0.0/0"@) == Some(x as int),
                None => last_reject_all(h.take(p as int), "0.0.0.0/0"@) is None,
            },
            match last_v6 {
                Some(x) => last_reject_all(h.take(p as int), "::/0"@) == Some(x as int),
                None => last_reject_all(h.take(p as int), "::/0"@) is None,
            },
            seen == has_reject_all(h.take(p as int)),
            string_views(late@) == unreachable_notes(h.take(p as int)),
        decreases m - p,
    {
        proof {
            assert(h.take(p + 1).drop_last() == h.take(p as int));
            assert(h.take(p + 1).last() == h[p as int]);
            assert(h[p as int] == ev[idx@[p as int] as int]);
            assert(ev[idx@[p as int] as int] == entries@[idx@[p as int] as int]@);
        }
        let e = &entries[idx[p]];
        let v4 = reject_all_from(e, false);
        let v6 = reject_all_from(e, true);
        if v4 {
            last_v4 = Some(p);
        }
        if v6 {
            last_v6 = Some(p);
        }
        if seen && !v4 && !v6 {
            let ghost before = string_views(late@);
            let s = unreachable_string(e);
            late.push(s);
            assert(string_views(late@) == before.push(s@));
        }
        if v4 || v6 {
            seen = true;
        }
        p = p + 1;
    }
    assert(h.take(m as int) == h);
    let mut problems: Vec<String> = Vec::new();
    if last_v4.is_none() {
        problems.push(String::from_str("No 'host all all 0.0.0.0/0 reject' rule found"));
    }
    if last_v6.is_none() {
        problems.push(String::from_str("No 'host all all ::/0 reject' rule found"));
    }
    let ghost missing = string_views(problems@);
    let ghost lv = string_views(late@);
    problems.append(&mut late);
    assert(string_views(problems@) == missing + lv);
    problems
}

pub open spec fn reject_all_remediation() -> Seq<char> {
    "Append 'host all all 0.0.0.0/0 reject' and 'host all all ::/0 reject' as the final pg_hba.conf rules"@
}

/// The result for the loaded entries: a pass when there are no problems,
/// otherwise a failure listing them.
pub open spec fn reject_all_result(entries: Seq<HbaEntryView>) -> CheckResultView {
    let problems = reject_all_problems(entries);
    if problems.len() == 0 {
        plain_result(
            "hba-reject-all"@,
            "pg_hba.conf Reject-All Default"@,
            Severity::High,
            true,
            "pg_hba.conf ends with reject-all rules for IPv4 and IPv6"@,
        )
    } else {
        CheckResultView {
            details: Some(problems),
            remediation: Some(reject_all_remediation()),
            ..plain_result(
                "hba-reject-all"@,
                "pg_hba.conf Reject-All Default"@,
                Severity::High,
                false,
                "pg_hba.conf is missing reject-all default rules"@,
            )
        }
    }
}

impl HbaRejectAllCheck {
    pub fn id(&self) -> (s: &'static str)
        ensures
            s@ == "hba-reject-all"@,
    {
        "hba-reject-all"
    }

    pub fn name(&self) -> (s: &'static str)
        ensures
            s@ == "pg_hba.conf Reject-All Default"@,
    {
        "pg_hba.conf Reject-All Default"
    }

    pub fn severity(&self) -> (s: Severity)
        ensures
            s == Severity::High,
    {
        Severity::High
    }

    pub fn description(&self) -> (s: &'static str)
        ensures
            s@
                == "Verify pg_hba.conf has reject-all rules (0.0.0.0/0 and ::/0) as the final entries"@,
    {
        "Verify pg_hba.conf has reject-all rules (0.0.0.0/0 and ::/0) as the final entries"
    }

    pub fn requires_connection(&self) -> (b: bool)
        ensures
            !b,
    {
        false
    }

    /// The verdict on the loaded entries.
    pub fn evaluate(&self, entries: &Vec<HbaEntry>) -> (r: CheckResult)
        ensures
            r@ == reject_all_result(entry_views(entries@)),
    {
        let problems = analyze_reject_all(entries);
        if problems.len() == 0 {
            CheckResult::pass(
                self.id(),
                self.name(),
                self.severity(),
                String::from_str("pg_hba.conf ends with reject-all rules for IPv4 and IPv6"),
            )
        } else {
            CheckResult::fail(
                self.id(),
                self.name(),
                self.severity(),
                String::from_str("pg_hba.conf is missing reject-all default rules"),
            ).with_details(problems).with_remediation(
                String::from_str(
                    "Append 'host all all 0.0.0.0/0 reject' and 'host all all ::/0 reject' as the final pg_hba.conf rules",
                ),
            )
        }
    }
}

} // verus!
