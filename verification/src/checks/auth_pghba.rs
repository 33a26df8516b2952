//! The `auth-pghba` check: dangerous authentication methods in pg_hba.conf.
use vstd::prelude::*;
use crate::checks::pghba::{
    dangerous_method, entry_views, is_dangerous_method, HbaEntry, HbaEntryView,
};
use crate::output::{plain_result, string_views, CheckResult, CheckResultView, Severity};
use crate::text::{decimal, push_decimal, push_str, vec_to_string};

verus! {

/// Check pg_hba.conf for dangerous authentication methods
pub struct AuthPgHbaCheck;

/// The finding reported for an entry with a dangerous method.
pub open spec fn issue_text(e: HbaEntryView) -> Seq<char> {
    e.source + ":"@ + decimal(e.line) + ": "@ + e.entry_type + " "@ + e.database + " "@ + e.user
        + " - '"@ + e.method + "' authentication is insecure"@
}

/// One finding per entry whose method is dangerous, in file order.
pub open spec fn dangerous_issues(s: Seq<HbaEntryView>) -> Seq<Seq<char>>
    decreases s.len(),
{
    if s.len() == 0 {
        seq![]
    } else {
        let r = dangerous_issues(s.drop_last());
        if is_dangerous_method(s.last().method) {
            r.push(issue_text(s.last()))
        } else {
            r
        }
    }
}

pub open spec fn auth_pghba_remediation() -> Seq<char> {
    "Replace 'trust', 'password', 'md5', and 'ident' with 'scram-sha-256' or 'cert'"@
}

/// The result for the loaded entries and the warnings of loading them: a
/// pass (carrying the warnings, if any) when no entry uses a dangerous
/// method, otherwise a failure listing each such entry.
pub open spec fn auth_pghba_result(
    entries: Seq<HbaEntryView>,
    warnings: Seq<Seq<char>>,
) -> CheckResultView {
    let issues = dangerous_issues(entries);
    let passed = plain_result(
        "auth-pghba"@,
        "pg_hba.conf Security"@,
        Severity::Critical,
        true,
        "No dangerous authentication methods found"@,
    );
    if issues.len() == 0 && warnings.len() == 0 {
        passed
    } else if issues.len() == 0 {
        CheckResultView { details: Some(warnings), ..passed }
    } else {
        CheckResultView {
            details: Some(issues),
            remediation: Some(auth_pghba_remediation()),
            ..plain_result(
                "auth-pghba"@,
                "pg_hba.conf Security"@,
                Severity::Critical,
                false,
                "Found "@ + decimal(issues.len()) + " dangerous authentication entries"@,
            )
        }
    }
}

proof fn lemma_no_issues(s: Seq<HbaEntryView>)
    ensures
        dangerous_issues(s).len() == 0 <==> forall|i: int|
            0 <= i < s.len() ==> !is_dangerous_method(#[trigger] s[i].method),
    decreases s.len(),
{
    if s.len() > 0 {
        let init = s.drop_last();
        lemma_no_issues(init);
        if forall|i: int| 0 <= i < s.len() ==> !is_dangerous_method(#[trigger] s[i].method) {
            assert forall|i: int| 0 <= i < init.len() implies !is_dangerous_method(
                #[trigger] init[i].method,
            ) by {
                assert(init[i] == s[i]);
            }
            assert(!is_dangerous_method(s[s.len() - 1].method));
        }
        if dangerous_issues(s).len() == 0 {
            assert forall|i: int| 0 <= i < s.len() implies !is_dangerous_method(
                #[trigger] s[i].method,
            ) by {
                if i < s.len() - 1 {
                    assert(init[i] == s[i]);
                }
            }
        }
    }
}

/// The check passes exactly when no entry uses a dangerous method (`trust`,
/// `password`, `md5`, `ident`); warnings from loading never make it fail.
pub proof fn law_auth_pghba_passes_iff_safe(entries: Seq<HbaEntryView>, warnings: Seq<Seq<char>>)
    ensures
        auth_pghba_result(entries, warnings).passed <==> forall|i: int|
            0 <= i < entries.len() ==> !is_dangerous_method(#[trigger] entries[i].method),
        auth_pghba_result(entries, warnings).severity == Severity::Critical,
{
    lemma_no_issues(entries);
}

/// The check fails exactly on the methods that the deny-all posture
/// forbids: it passes iff no entry authenticates by `trust`, `password`,
/// `md5` or `ident`; any other method (`reject`, `scram-sha-256`, `cert`,
/// `peer`, ...) never makes it fail.
pub proof fn law_auth_pghba_forbidden_methods(entries: Seq<HbaEntryView>, warnings: Seq<Seq<char>>)
    ensures
        auth_pghba_result(entries, warnings).passed <==> forall|i: int|
            0 <= i < entries.len() ==> {
                let m = #[trigger] entries[i].method;
                &&& m != "trust"@
                &&& m != "password"@
                &&& m != "md5"@
                &&& m != "ident"@
            },
{
    lemma_no_issues(entries);
}

fn issue_string(e: &HbaEntry) -> (s: String)
    ensures
        s@ == issue_text(e@),
{
    let mut m: Vec<char> = Vec::new();
    push_str(&mut m, e.source.as_str());
    push_str(&mut m, ":");
    push_decimal(&mut m, e.line as u64);
    push_str(&mut m, ": ");
    push_str(&mut m, e.entry_type.as_str());
    push_str(&mut m, " ");
    push_str(&mut m, e.database.as_str());
    push_str(&mut m, " ");
    push_str(&mut m, e.user.as_str());
    push_str(&mut m, " - '");
    push_str(&mut m, e.method.as_str());
    push_str(&mut m, "' authentication is insecure");
    vec_to_string(&m)
}

/// The findings for every entry with a dangerous method.
pub fn find_dangerous(entries: &Vec<HbaEntry>) -> (issues: Vec<String>)
    ensures
        string_views(issues@) == dangerous_issues(entry_views(entries@)),
{
    let mut issues: Vec<String> = Vec::new();
    let mut k: usize = 0;
    while k < entries.len()
        invariant
            k <= entries.len(),
            string_views(issues@) == dangerous_issues(entry_views(entries@).take(k as int)),
        decreases entries.len() - k,
    {
        let ghost before = string_views(issues@);
        proof {
            assert(entry_views(entries@).take(k + 1).drop_last() == entry_views(entries@).take(
                k as int,
            ));
        }
        if dangerous_method(entries[k].method.as_str()) {
            let s = issue_string(&entries[k]);
            issues.push(s);
            assert(string_views(issues@) == before.push(s@));
        }
        k = k + 1;
    }
    assert(entry_views(entries@).take(entries.len() as int) == entry_views(entries@));
    issues
}

impl AuthPgHbaCheck {
    pub fn id(&self) -> (s: &'static str)
        ensures
            s@ == "auth-pghba"@,
    {
        "auth-pghba"
    }

    pub fn name(&self) -> (s: &'static str)
        ensures
            s@ == "pg_hba.conf Security"@,
    {
        "pg_hba.conf Security"
    }

    pub fn severity(&self) -> (s: Severity)
        ensures
            s == Severity::Critical,
    {
        Severity::Critical
    }

    pub fn description(&self) -> (s: &'static str)
        ensures
            s@ == "Check for dangerous authentication methods in pg_hba.conf"@,
    {
        "Check for dangerous authentication methods in pg_hba.conf"
    }

    /// Can work with file path directly
    pub fn requires_connection(&self) -> (b: bool)
        ensures
            !b,
    {
        false
    }

    /// The verdict on the loaded entries and the warnings of loading them.
    pub fn evaluate(&self, entries: &Vec<HbaEntry>, warnings: Vec<String>) -> (r: CheckResult)
        ensures
            r@ == auth_pghba_result(entry_views(entries@), string_views(warnings@)),
    {
        let issues = find_dangerous(entries);
        if issues.len() == 0 && warnings.len() == 0 {
            CheckResult::pass(
                self.id(),
                self.name(),
                self.severity(),
                String::from_str("No dangerous authentication methods found"),
            )
        } else if issues.len() == 0 {
            CheckResult::pass(
                self.id(),
                self.name(),
                self.severity(),
                String::from_str("No dangerous authentication methods found"),
            ).with_details(warnings)
        } else {
            let mut m: Vec<char> = Vec::new();
            push_str(&mut m, "Found ");
            push_decimal(&mut m, issues.len() as u64);
            push_str(&mut m, " dangerous authentication entries");
            CheckResult::fail(self.id(), self.name(), self.severity(), vec_to_string(&m))
                .with_details(issues).with_remediation(
                String::from_str(
                    "Replace 'trust', 'password', 'md5', and 'ident' with 'scram-sha-256' or 'cert'",
                ),
            )
        }
    }
}

} // verus!
