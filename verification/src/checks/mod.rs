//! The security checks and their registry.
use vstd::prelude::*;

pub mod pghba;
pub mod auth_scram;
pub mod ssl_enabled;
pub mod auth_pghba;
pub mod hba_reject_all;

use crate::checks::auth_pghba::AuthPgHbaCheck;
use crate::checks::auth_scram::AuthScramCheck;
use crate::checks::hba_reject_all::HbaRejectAllCheck;
use crate::checks::ssl_enabled::SslEnabledCheck;
use crate::config::{runs_check, ScanConfig};
use crate::error::CheckError;
use crate::output::CheckResult;
use crate::output::{severity_label, Severity};
use crate::text::{push_str, vec_to_string};

verus! {

/// The security checks that a scan can run.
#[derive(Clone, Copy, Debug, PartialEq, Eq, Structural)]
pub enum CheckKind {
    AuthScram,
    SslEnabled,
    AuthPgHba,
    HbaRejectAll,
}

pub open spec fn kind_id(k: CheckKind) -> Seq<char> {
    match k {
        CheckKind::AuthScram => "auth-scram"@,
        CheckKind::SslEnabled => "ssl-enabled"@,
        CheckKind::AuthPgHba => "auth-pghba"@,
        CheckKind::HbaRejectAll => "hba-reject-all"@,
    }
}

pub open spec fn kind_description(k: CheckKind) -> Seq<char> {
    match k {
        CheckKind::AuthScram => "Verify SCRAM-SHA-256 is used for password encryption"@,
        CheckKind::SslEnabled => "Verify SSL is enabled for encrypted connections"@,
        CheckKind::AuthPgHba => "Check for dangerous authentication methods in pg_hba.conf"@,
        CheckKind::HbaRejectAll =>
            "Verify pg_hba.conf has reject-all rules (0.0.0.0/0 and ::/0) as the final entries"@,
    }
}

pub open spec fn kind_severity(k: CheckKind) -> Severity {
    match k {
        CheckKind::AuthScram => Severity::Critical,
        CheckKind::SslEnabled => Severity::Critical,
        CheckKind::AuthPgHba => Severity::Critical,
        CheckKind::HbaRejectAll => Severity::High,
    }
}

/// The file-based checks work without a database connection.
pub open spec fn kind_requires_connection(k: CheckKind) -> bool {
    match k {
        CheckKind::AuthScram => true,
        CheckKind::SslEnabled => true,
        CheckKind::AuthPgHba => false,
        CheckKind::HbaRejectAll => false,
    }
}

/// `s` padded with spaces on the right to at least `width` characters.
pub open spec fn pad_right(s: Seq<char>, width: nat) -> Seq<char> {
    if s.len() >= width {
        s
    } else {
        s + Seq::new((width - s.len()) as nat, |_i: int| ' ')
    }
}

/// The line that lists a check: id padded to 20, severity, description.
pub open spec fn list_line_text(k: CheckKind) -> Seq<char> {
    "  "@ + pad_right(kind_id(k), 20) + " ["@ + severity_label(kind_severity(k)) + "] "@
        + kind_description(k)
}

impl CheckKind {
    /// Unique identifier for the check
    pub fn id(&self) -> (s: &'static str)
        ensures
            s@ == kind_id(*self),
    {
        match self {
            CheckKind::AuthScram => AuthScramCheck.id(),
            CheckKind::SslEnabled => SslEnabledCheck.id(),
            CheckKind::AuthPgHba => AuthPgHbaCheck.id(),
            CheckKind::HbaRejectAll => HbaRejectAllCheck.id(),
        }
    }

    /// Human-readable name
    pub fn name(&self) -> (s: &'static str)
        ensures
            s@ == match *self {
                CheckKind::AuthScram => "SCRAM-SHA-256 Authentication"@,
                CheckKind::SslEnabled => "SSL Enabled"@,
                CheckKind::AuthPgHba => "pg_hba.conf Security"@,
                CheckKind::HbaRejectAll => "pg_hba.conf Reject-All Default"@,
            },
    {
        match self {
            CheckKind::AuthScram => AuthScramCheck.name(),
            CheckKind::SslEnabled => SslEnabledCheck.name(),
            CheckKind::AuthPgHba => AuthPgHbaCheck.name(),
            CheckKind::HbaRejectAll => HbaRejectAllCheck.name(),
        }
    }

    /// Severity if check fails
    pub fn severity(&self) -> (s: Severity)
        ensures
            s == kind_severity(*self),
    {
        match self {
            CheckKind::AuthScram => AuthScramCheck.severity(),
            CheckKind::SslEnabled => SslEnabledCheck.severity(),
            CheckKind::AuthPgHba => AuthPgHbaCheck.severity(),
            CheckKind::HbaRejectAll => HbaRejectAllCheck.severity(),
        }
    }

    /// Description of what this check does
    pub fn description(&self) -> (s: &'static str)
        ensures
            s@ == kind_description(*self),
    {
        match self {
            CheckKind::AuthScram => AuthScramCheck.description(),
            CheckKind::SslEnabled => SslEnabledCheck.description(),
            CheckKind::AuthPgHba => AuthPgHbaCheck.description(),
            CheckKind::HbaRejectAll => HbaRejectAllCheck.description(),
        }
    }

    /// Whether this check requires a database connection
    pub fn requires_connection(&self) -> (b: bool)
        ensures
            b == kind_requires_connection(*self),
    {
        match self {
            CheckKind::AuthScram => AuthScramCheck.requires_connection(),
            CheckKind::SslEnabled => SslEnabledCheck.requires_connection(),
            CheckKind::AuthPgHba => AuthPgHbaCheck.requires_connection(),
            CheckKind::HbaRejectAll => HbaRejectAllCheck.requires_connection(),
        }
    }

    /// The line that lists this check.
    pub fn list_line(&self) -> (s: String)
        ensures
            s@ == list_line_text(*self),
    {
        let mut m: Vec<char> = Vec::new();
        push_str(&mut m, "  ");
        let id = self.id();
        let before = m.len();
        push_str(&mut m, id);
        let id_len = m.len() - before;
        let mut k = id_len;
        let ghost padded_from = m@;
        while k < 20
            invariant
                id_len <= k <= 20 || (k == id_len && id_len >= 20),
                m@ == padded_from + Seq::new((k - id_len) as nat, |_i: int| ' '),
            decreases 20 - k,
        {
            m.push(' ');
            k = k + 1;
            assert(m@ =~= padded_from + Seq::new((k - id_len) as nat, |_i: int| ' '));
        }
        proof {
            assert(id_len == kind_id(*self).len());
            if id_len >= 20 {
                assert(m@ =~= padded_from);
            }
            assert(m@ =~= "  "@ + pad_right(kind_id(*self), 20));
        }
        push_str(&mut m, " [");
        push_str(&mut m, self.severity().as_str());
        push_str(&mut m, "] ");
        push_str(&mut m, self.description());
        proof {
            assert(m@ =~= list_line_text(*self));
        }
        vec_to_string(&m)
    }
}

/// The checks that run for a configuration, in registry order: those the
/// configuration selects, less those that need a connection when there is
/// none.
pub open spec fn selected_checks(
    ks: Seq<CheckKind>,
    config: ScanConfig,
    connected: bool,
) -> Seq<CheckKind>
    decreases ks.len(),
{
    if ks.len() == 0 {
        seq![]
    } else {
        let rest = selected_checks(ks.drop_last(), config, connected);
        let k = ks.last();
        if runs_check(config.include_checks, config.exclude_checks, kind_id(k)) && !(
        kind_requires_connection(k) && !connected) {
            rest.push(k)
        } else {
            rest
        }
    }
}

/// A check runs exactly when it is registered, the configuration selects
/// it, and it does not need a connection that is missing: an offline scan
/// runs file-based checks only.
pub proof fn law_selected_checks(ks: Seq<CheckKind>, config: ScanConfig, connected: bool, k: CheckKind)
    ensures
        selected_checks(ks, config, connected).contains(k) <==> {
            &&& ks.contains(k)
            &&& runs_check(config.include_checks, config.exclude_checks, kind_id(k))
            &&& (kind_requires_connection(k) ==> connected)
        },
    decreases ks.len(),
{
    if ks.len() > 0 {
        let init = ks.drop_last();
        law_selected_checks(init, config, connected, k);
        let rest = selected_checks(init, config, connected);
        let sel = selected_checks(ks, config, connected);
        assert(ks.contains(k) <==> (init.contains(k) || ks.last() == k)) by {
            if ks.contains(k) {
                let i = choose|i: int| 0 <= i < ks.len() && ks[i] == k;
                if i < ks.len() - 1 {
                    assert(init[i] == k);
                }
            }
            if init.contains(k) {
                let i = choose|i: int| 0 <= i < init.len() && init[i] == k;
                assert(ks[i] == k);
            }
            if ks.last() == k {
                assert(ks[ks.len() - 1] == k);
            }
        }
        if sel != rest {
            let l = ks.last();
            assert(sel == rest.push(l));
            assert(sel.contains(k) <==> (rest.contains(k) || l == k)) by {
                if sel.contains(k) {
                    let i = choose|i: int| 0 <= i < sel.len() && sel[i] == k;
                    if i < rest.len() {
                        assert(rest[i] == k);
                    }
                }
                if rest.contains(k) {
                    let i = choose|i: int| 0 <= i < rest.len() && rest[i] == k;
                    assert(sel[i] == k);
                }
                if l == k {
                    assert(sel[rest.len() as int] == k);
                }
            }
        }
    }
}

/// The results of the checks that ran, in order: a check whose execution
/// failed (its query or file read gave an error) is left out.
pub open spec fn ok_results(outcomes: Seq<Result<CheckResult, CheckError>>) -> Seq<CheckResult>
    decreases outcomes.len(),
{
    if outcomes.len() == 0 {
        seq![]
    } else {
        let r = ok_results(outcomes.drop_last());
        match outcomes.last() {
            Ok(c) => r.push(c),
            Err(_) => r,
        }
    }
}

/// Registry of all available checks
pub struct CheckRegistry {
    checks: Vec<CheckKind>,
}

impl View for CheckRegistry {
    type V = Seq<CheckKind>;

    closed spec fn view(&self) -> Seq<CheckKind> {
        self.checks@
    }
}

impl CheckRegistry {
    pub fn new() -> (r: Self)
        ensures
            r@ == seq![
                CheckKind::AuthScram,
                CheckKind::SslEnabled,
                CheckKind::AuthPgHba,
                CheckKind::HbaRejectAll,
            ],
    {
        let checks = vec![
            CheckKind::AuthScram,
            CheckKind::SslEnabled,
            CheckKind::AuthPgHba,
            CheckKind::HbaRejectAll,
        ];
        let r = CheckRegistry { checks };
        assert(r@ =~= seq![
            CheckKind::AuthScram,
            CheckKind::SslEnabled,
            CheckKind::AuthPgHba,
            CheckKind::HbaRejectAll,
        ]);
        r
    }

    pub fn checks(&self) -> (c: &[CheckKind])
        ensures
            c@ == self@,
    {
        self.checks.as_slice()
    }

    /// The checks to run on a host, in order (the decisions of a host scan):
    /// selected by the configuration, and skipping those that require a
    /// connection when there is none.
    pub fn checks_to_run(&self, config: &ScanConfig, connected: bool) -> (r: Vec<CheckKind>)
        ensures
            r@ == selected_checks(self@, *config, connected),
    {
        let mut r: Vec<CheckKind> = Vec::new();
        let mut k: usize = 0;
        while k < self.checks.len()
            invariant
                k <= self.checks.len(),
                r@ == selected_checks(self.checks@.take(k as int), *config, connected),
            decreases self.checks.len() - k,
        {
            proof {
                assert(self.checks@.take(k + 1).drop_last() == self.checks@.take(k as int));
            }
            let c = self.checks[k];
            if config.should_run_check(c.id()) && !(c.requires_connection() && !connected) {
                r.push(c);
            }
            k = k + 1;
        }
        assert(self.checks@.take(self.checks.len() as int) == self.checks@);
        r
    }
}

impl Default for CheckRegistry {
    fn default() -> (r: Self)
        ensures
            r@ == seq![
                CheckKind::AuthScram,
                CheckKind::SslEnabled,
                CheckKind::AuthPgHba,
                CheckKind::HbaRejectAll,
            ],
    {
        Self::new()
    }
}

/// The state of a host's run of checks.
pub struct CheckRunView {
    /// The checks to run, in order.
    pub order: Seq<CheckKind>,
    /// The checks handed out so far, in order.
    pub handed: Seq<CheckKind>,
    /// The checks not handed out yet.
    pub pending: Seq<CheckKind>,
    /// The check handed out whose outcome is awaited.
    pub current: Option<CheckKind>,
    /// The outcomes handed back, one per finished check, in order.
    pub outcomes: Seq<Result<CheckResult, CheckError>>,
    /// The results of the checks whose execution succeeded, in order.
    pub results: Seq<CheckResult>,
}

/// Runs a host's checks one at a time: the caller executes each check that
/// `next_check` hands out and gives back its outcome.
pub struct CheckRun {
    pending: Vec<CheckKind>,
    current: Option<CheckKind>,
    results: Vec<CheckResult>,
    order: Ghost<Seq<CheckKind>>,
    handed: Ghost<Seq<CheckKind>>,
    outcomes: Ghost<Seq<Result<CheckResult, CheckError>>>,
}

impl View for CheckRun {
    type V = CheckRunView;

    closed spec fn view(&self) -> CheckRunView {
        CheckRunView {
            order: self.order@,
            handed: self.handed@,
            pending: self.pending@,
            current: self.current,
            outcomes: self.outcomes@,
            results: self.results@,
        }
    }
}

impl CheckRun {
    /// The handed-out checks and the pending ones make up the run's order,
    /// every finished check has its outcome, and the results are the
    /// successful outcomes.
    pub closed spec fn wf(&self) -> bool {
        &&& self.handed@ + self.pending@ == self.order@
        &&& self.outcomes@.len() == self.handed@.len() - if self.current is Some {
            1int
        } else {
            0int
        }
        &&& (self.current matches Some(k) ==> self.handed@.len() > 0 && self.handed@.last() == k)
        &&& self.results@ == ok_results(self.outcomes@)
    }

    /// Hands out the next check to execute, or `None` when every check has
    /// been run.
    pub fn next_check(&mut self) -> (r: Option<CheckKind>)
        requires
            old(self).wf(),
            old(self)@.current is None,
        ensures
            final(self).wf(),
            final(self)@.order == old(self)@.order,
            final(self)@.outcomes == old(self)@.outcomes,
            final(self)@.results == old(self)@.results,
            final(self)@.current == r,
            old(self)@.pending.len() == 0 ==> r is None && final(self)@ == old(self)@,
            old(self)@.pending.len() > 0 ==> {
                &&& r == Some(old(self)@.pending[0])
                &&& final(self)@.handed == old(self)@.handed.push(old(self)@.pending[0])
                &&& final(self)@.pending == old(self)@.pending.drop_first()
            },
    {
        if self.pending.len() == 0 {
            return None;
        }
        let ghost p = self.pending@;
        let k = self.pending.remove(0);
        proof {
            self.handed = Ghost(self.handed@.push(k));
            assert(self.handed@ + self.pending@ =~= self.order@) by {
                assert(p =~= seq![k] + self.pending@);
            }
        }
        self.current = Some(k);
        Some(k)
    }

    /// Hands back the outcome of executing the check last handed out: its
    /// result, or the error its execution gave (which leaves no result).
    pub fn record(&mut self, outcome: Result<CheckResult, CheckError>)
        requires
            old(self).wf(),
            old(self)@.current is Some,
        ensures
            final(self).wf(),
            final(self)@.order == old(self)@.order,
            final(self)@.handed == old(self)@.handed,
            final(self)@.pending == old(self)@.pending,
            final(self)@.current is None,
            final(self)@.outcomes == old(self)@.outcomes.push(outcome),
            final(self)@.results == ok_results(final(self)@.outcomes),
    {
        let ghost o = outcome;
        let ghost before = self.outcomes@;
        proof {
            self.outcomes = Ghost(before.push(o));
            assert(self.outcomes@.drop_last() == before);
        }
        self.current = None;
        match outcome {
            Ok(c) => {
                self.results.push(c);
            },
            Err(_) => {},
        }
    }

    /// The results of the run, in order.
    pub fn finish(self) -> (r: Vec<CheckResult>)
        ensures
            r@ == self@.results,
    {
        self.results
    }

    /// A finished run handed out every check of its order exactly once, in
    /// order, and its results are the successful outcomes, in that order.
    pub proof fn law_run_complete(&self)
        requires
            self.wf(),
            self@.pending.len() == 0,
            self@.current is None,
        ensures
            self@.handed == self@.order,
            self@.outcomes.len() == self@.order.len(),
            self@.results == ok_results(self@.outcomes),
    {
        assert(self.handed@ + self.pending@ =~= self.handed@);
    }
}

impl CheckRegistry {
    /// Starts the run of the checks that run on a host: those that
    /// `checks_to_run` selects, in registry order.
    pub fn start_run(&self, config: &ScanConfig, connected: bool) -> (run: CheckRun)
        ensures
            run.wf(),
            run@.order == selected_checks(self@, *config, connected),
            run@.handed == Seq::<CheckKind>::empty(),
            run@.pending == run@.order,
            run@.current is None,
            run@.outcomes == Seq::<Result<CheckResult, CheckError>>::empty(),
            run@.results == Seq::<CheckResult>::empty(),
    {
        let pending = self.checks_to_run(config, connected);
        let run = CheckRun {
            pending,
            current: None,
            results: Vec::new(),
            order: Ghost(selected_checks(self@, *config, connected)),
            handed: Ghost(Seq::<CheckKind>::empty()),
            outcomes: Ghost(Seq::<Result<CheckResult, CheckError>>::empty()),
        };
        assert(run.handed@ + run.pending@ =~= run.order@);
        assert(run.results@ =~= ok_results(run.outcomes@));
        run
    }
}

} // verus!
