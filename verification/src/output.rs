//! Check results, scan reports and their summaries.
use vstd::prelude::*;
use crate::text::{decimal, push_decimal, push_str, vec_to_string};

verus! {

/// Severity level for security findings
#[derive(Debug, Clone, Copy, PartialEq, Eq, PartialOrd, Ord, Structural)]
pub enum Severity {
    Info,
    Low,
    Medium,
    High,
    Critical,
}

/// The label a severity is shown with.
pub open spec fn severity_label(s: Severity) -> Seq<char> {
    match s {
        Severity::Info => "INFO"@,
        Severity::Low => "LOW"@,
        Severity::Medium => "MEDIUM"@,
        Severity::High => "HIGH"@,
        Severity::Critical => "CRITICAL"@,
    }
}

/// Terminal colours that report text is shown in (`Plain`: the terminal's own).
#[derive(Debug, Clone, Copy, PartialEq, Eq, Structural)]
pub enum TextColor {
    Blue,
    Cyan,
    Yellow,
    Red,
    Green,
    Plain,
}

/// Text with the colour and weight it is to be shown in on a terminal.
pub struct StyledText {
    pub text: String,
    pub color: TextColor,
    pub bold: bool,
}

/// Styled text as plain values.
pub struct StyledView {
    pub text: Seq<char>,
    pub color: TextColor,
    pub bold: bool,
}

impl View for StyledText {
    type V = StyledView;

    open spec fn view(&self) -> StyledView {
        StyledView { text: self.text@, color: self.color, bold: self.bold }
    }
}

/// A piece of styled text.
pub open spec fn span(text: Seq<char>, color: TextColor, bold: bool) -> StyledView {
    StyledView { text, color, bold }
}

/// The lines of styled pieces held by a vector of lines.
pub open spec fn line_views(v: Seq<Vec<StyledText>>) -> Seq<Seq<StyledView>> {
    v.map_values(|l: Vec<StyledText>| l@.map_values(|t: StyledText| t@))
}

fn styled(text: &str, color: TextColor, bold: bool) -> (t: StyledText)
    ensures
        t@ == span(text@, color, bold),
{
    StyledText { text: String::from_str(text), color, bold }
}

impl Severity {
    pub fn as_str(&self) -> (s: &'static str)
        ensures
            s@ == severity_label(*self),
    {
        match self {
            Severity::Info => "INFO",
            Severity::Low => "LOW",
            Severity::Medium => "MEDIUM",
            Severity::High => "HIGH",
            Severity::Critical => "CRITICAL",
        }
    }

    /// The label in its terminal style: INFO blue, LOW cyan, MEDIUM yellow,
    /// HIGH red, CRITICAL bold red.
    pub fn colored(&self) -> (t: StyledText)
        ensures
            t.text@ == severity_label(*self),
            t.color == match *self {
                Severity::Info => TextColor::Blue,
                Severity::Low => TextColor::Cyan,
                Severity::Medium => TextColor::Yellow,
                Severity::High => TextColor::Red,
                Severity::Critical => TextColor::Red,
            },
            t.bold == (*self == Severity::Critical),
    {
        let text = String::from_str(self.as_str());
        match self {
            Severity::Info => StyledText { text, color: TextColor::Blue, bold: false },
            Severity::Low => StyledText { text, color: TextColor::Cyan, bold: false },
            Severity::Medium => StyledText { text, color: TextColor::Yellow, bold: false },
            Severity::High => StyledText { text, color: TextColor::Red, bold: false },
            Severity::Critical => StyledText { text, color: TextColor::Red, bold: true },
        }
    }
}

/// Result of a security check
#[derive(Debug, Clone)]
pub struct CheckResult {
    pub check_id: String,
    pub check_name: String,
    pub severity: Severity,
    pub passed: bool,
    pub message: String,
    pub details: Option<Vec<String>>,
    pub remediation: Option<String>,
}

/// A check result as plain values.
pub struct CheckResultView {
    pub check_id: Seq<char>,
    pub check_name: Seq<char>,
    pub severity: Severity,
    pub passed: bool,
    pub message: Seq<char>,
    pub details: Option<Seq<Seq<char>>>,
    pub remediation: Option<Seq<char>>,
}

/// The character sequences held by a vector of strings.
pub open spec fn string_views(v: Seq<String>) -> Seq<Seq<char>> {
    v.map_values(|s: String| s@)
}

impl View for CheckResult {
    type V = CheckResultView;

    open spec fn view(&self) -> CheckResultView {
        CheckResultView {
            check_id: self.check_id@,
            check_name: self.check_name@,
            severity: self.severity,
            passed: self.passed,
            message: self.message@,
            details: match self.details {
                Some(d) => Some(string_views(d@)),
                None => None,
            },
            remediation: match self.remediation {
                Some(r) => Some(r@),
                None => None,
            },
        }
    }
}

/// The result a check builds before details or a remediation are added.
pub open spec fn plain_result(
    id: Seq<char>,
    name: Seq<char>,
    severity: Severity,
    passed: bool,
    message: Seq<char>,
) -> CheckResultView {
    CheckResultView {
        check_id: id,
        check_name: name,
        severity,
        passed,
        message,
        details: None,
        remediation: None,
    }
}

impl CheckResult {
    pub fn pass(id: &str, name: &str, severity: Severity, message: String) -> (r: Self)
        ensures
            r@ == plain_result(id@, name@, severity, true, message@),
    {
        CheckResult {
            check_id: String::from_str(id),
            check_name: String::from_str(name),
            severity,
            passed: true,
            message,
            details: None,
            remediation: None,
        }
    }

    pub fn fail(id: &str, name: &str, severity: Severity, message: String) -> (r: Self)
        ensures
            r@ == plain_result(id@, name@, severity, false, message@),
    {
        CheckResult {
            check_id: String::from_str(id),
            check_name: String::from_str(name),
            severity,
            passed: false,
            message,
            details: None,
            remediation: None,
        }
    }

    pub fn with_details(self, details: Vec<String>) -> (r: Self)
        ensures
            r@ == (CheckResultView { details: Some(string_views(details@)), ..self@ }),
    {
        let mut r = self;
        r.details = Some(details);
        r
    }

    pub fn with_remediation(self, remediation: String) -> (r: Self)
        ensures
            r@ == (CheckResultView { remediation: Some(remediation@), ..self@ }),
    {
        let mut r = self;
        r.remediation = Some(remediation);
        r
    }
}

/// The severity label in its terminal style.
pub open spec fn severity_span(s: Severity) -> StyledView {
    span(
        severity_label(s),
        match s {
            Severity::Info => TextColor::Blue,
            Severity::Low => TextColor::Cyan,
            Severity::Medium => TextColor::Yellow,
            Severity::High => TextColor::Red,
            Severity::Critical => TextColor::Red,
        },
        s == Severity::Critical,
    )
}

/// The lines a check result is shown with: a green tick or a red cross, the
/// severity, the bold check name and the message; an arrowed line per
/// detail; and, for a failed check with a remediation, a yellow `Fix:` line.
pub open spec fn result_lines(r: CheckResultView) -> Seq<Seq<StyledView>> {
    let head = seq![
        if r.passed {
            span("\u{2713}"@, TextColor::Green, false)
        } else {
            span("\u{2717}"@, TextColor::Red, false)
        },
        span(" ["@, TextColor::Plain, false),
        severity_span(r.severity),
        span("] "@, TextColor::Plain, false),
        span(r.check_name, TextColor::Plain, true),
        span(": "@ + r.message, TextColor::Plain, false),
    ];
    let details = match r.details {
        Some(d) => d.map_values(
            |x: Seq<char>| seq![span("    \u{2192} "@ + x, TextColor::Plain, false)],
        ),
        None => seq![],
    };
    let fix = match r.remediation {
        Some(m) if !r.passed => seq![
            seq![
                span("    "@, TextColor::Plain, false),
                span("Fix:"@, TextColor::Yellow, false),
                span(" "@ + m, TextColor::Plain, false),
            ],
        ],
        _ => seq![],
    };
    seq![head] + details + fix
}

impl CheckResult {
    /// The lines the result is shown with.
    pub fn lines(&self) -> (l: Vec<Vec<StyledText>>)
        ensures
            line_views(l@) == result_lines(self@),
    {
        let mut head: Vec<StyledText> = Vec::new();
        if self.passed {
            head.push(styled("\u{2713}", TextColor::Green, false));
        } else {
            head.push(styled("\u{2717}", TextColor::Red, false));
        }
        head.push(styled(" [", TextColor::Plain, false));
        head.push(self.severity.colored());
        head.push(styled("] ", TextColor::Plain, false));
        head.push(styled(self.check_name.as_str(), TextColor::Plain, true));
        let mut m: Vec<char> = Vec::new();
        push_str(&mut m, ": ");
        push_str(&mut m, self.message.as_str());
        head.push(StyledText { text: vec_to_string(&m), color: TextColor::Plain, bold: false });
        let ghost hv = head@.map_values(|t: StyledText| t@);
        assert(hv =~= result_lines(self@)[0]);
        let mut lines: Vec<Vec<StyledText>> = Vec::new();
        lines.push(head);
        assert(line_views(lines@) =~= seq![hv]);
        let ghost dv = match self@.details {
            Some(d) => d.map_values(
                |x: Seq<char>| seq![span("    \u{2192} "@ + x, TextColor::Plain, false)],
            ),
            None => seq![],
        };
        if let Some(details) = &self.details {
            let mut k: usize = 0;
            while k < details.len()
                invariant
                    k <= details.len(),
                    self.details == Some(*details),
                    dv == string_views(details@).map_values(
                        |x: Seq<char>| seq![span("    \u{2192} "@ + x, TextColor::Plain, false)],
                    ),
                    line_views(lines@) == seq![hv] + dv.take(k as int),
                decreases details.len() - k,
            {
                let mut d: Vec<char> = Vec::new();
                push_str(&mut d, "    \u{2192} ");
                push_str(&mut d, details[k].as_str());
                let mut line: Vec<StyledText> = Vec::new();
                line.push(StyledText { text: vec_to_string(&d), color: TextColor::Plain, bold: false });
                let ghost before = line_views(lines@);
                let ghost lv = line@.map_values(|t: StyledText| t@);
                assert(lv =~= dv[k as int]);
                lines.push(line);
                assert(line_views(lines@) =~= before.push(lv));
                assert(dv.take(k + 1) =~= dv.take(k as int).push(dv[k as int]));
                k = k + 1;
            }
            assert(dv.take(details.len() as int) =~= dv);
        } else {
            assert(seq![hv] + dv =~= seq![hv]);
        }
        assert(line_views(lines@) == seq![hv] + dv);
        let ghost fv: Seq<Seq<StyledView>> = match self@.remediation {
            Some(m) if !self@.passed => seq![
                seq![
                    span("    "@, TextColor::Plain, false),
                    span("Fix:"@, TextColor::Yellow, false),
                    span(" "@ + m, TextColor::Plain, false),
                ],
            ],
            _ => seq![],
        };
        assert(result_lines(self@) == seq![hv] + dv + fv);
        if !self.passed {
            if let Some(rem) = &self.remediation {
                let mut line: Vec<StyledText> = Vec::new();
                line.push(styled("    ", TextColor::Plain, false));
                line.push(styled("Fix:", TextColor::Yellow, false));
                let mut f: Vec<char> = Vec::new();
                push_str(&mut f, " ");
                push_str(&mut f, rem.as_str());
                line.push(StyledText { text: vec_to_string(&f), color: TextColor::Plain, bold: false });
                let ghost before = line_views(lines@);
                let ghost lv = line@.map_values(|t: StyledText| t@);
                assert(lv =~= fv[0]);
                assert(fv =~= seq![lv]);
                lines.push(line);
                assert(line_views(lines@) =~= before.push(lv));
            } else {
                assert(fv =~= seq![]);
            }
        } else {
            assert(fv =~= seq![]);
        }
        assert(line_views(lines@) =~= result_lines(self@));
        lines
    }
}

/// Report containing all check results
pub struct ScanReport {
    pub results: Vec<CheckResult>,
    pub summary: ScanSummary,
}

pub struct ScanSummary {
    pub total: usize,
    pub passed: usize,
    pub failed: usize,
    pub critical: usize,
    pub high: usize,
}

/// The summary line under `label`: the passed count in green, the failed
/// count in red, then the critical and high failures.
pub open spec fn summary_spans(label: Seq<char>, s: ScanSummary) -> Seq<StyledView> {
    seq![
        span(label + ": "@, TextColor::Plain, false),
        span(decimal(s.passed as nat), TextColor::Green, false),
        span(" passed, "@, TextColor::Plain, false),
        span(decimal(s.failed as nat), TextColor::Red, false),
        span(
            " failed ("@ + decimal(s.critical as nat) + " critical, "@ + decimal(s.high as nat)
                + " high)"@,
            TextColor::Plain,
            false,
        ),
    ]
}

fn decimal_text(n: usize) -> (s: String)
    ensures
        s@ == decimal(n as nat),
{
    let mut m: Vec<char> = Vec::new();
    push_decimal(&mut m, n as u64);
    vec_to_string(&m)
}

impl ScanSummary {
    /// The summary line under `label` (`Summary`, or `Overall` over hosts).
    pub fn line(&self, label: &str) -> (l: Vec<StyledText>)
        ensures
            l@.map_values(|t: StyledText| t@) == summary_spans(label@, *self),
    {
        let mut l: Vec<StyledText> = Vec::new();
        let mut a: Vec<char> = Vec::new();
        push_str(&mut a, label);
        push_str(&mut a, ": ");
        l.push(StyledText { text: vec_to_string(&a), color: TextColor::Plain, bold: false });
        l.push(StyledText { text: decimal_text(self.passed), color: TextColor::Green, bold: false });
        l.push(styled(" passed, ", TextColor::Plain, false));
        l.push(StyledText { text: decimal_text(self.failed), color: TextColor::Red, bold: false });
        let mut b: Vec<char> = Vec::new();
        push_str(&mut b, " failed (");
        push_decimal(&mut b, self.critical as u64);
        push_str(&mut b, " critical, ");
        push_decimal(&mut b, self.high as u64);
        push_str(&mut b, " high)");
        l.push(StyledText { text: vec_to_string(&b), color: TextColor::Plain, bold: false });
        assert(l@.map_values(|t: StyledText| t@) =~= summary_spans(label@, *self));
        l
    }
}

/// How many results passed.
pub open spec fn count_passed(rs: Seq<CheckResult>) -> nat
    decreases rs.len(),
{
    if rs.len() == 0 {
        0
    } else {
        count_passed(rs.drop_last()) + if rs.last().passed {
            1nat
        } else {
            0nat
        }
    }
}

/// How many results failed with the given severity.
pub open spec fn count_failed_at(rs: Seq<CheckResult>, sev: Severity) -> nat
    decreases rs.len(),
{
    if rs.len() == 0 {
        0
    } else {
        count_failed_at(rs.drop_last(), sev) + if !rs.last().passed && rs.last().severity
            == sev {
            1nat
        } else {
            0nat
        }
    }
}

proof fn lemma_count_passed_bound(rs: Seq<CheckResult>)
    ensures
        count_passed(rs) <= rs.len(),
    decreases rs.len(),
{
    if rs.len() > 0 {
        lemma_count_passed_bound(rs.drop_last());
    }
}

proof fn lemma_count_failed_bound(rs: Seq<CheckResult>, sev: Severity)
    ensures
        count_failed_at(rs, sev) <= rs.len(),
    decreases rs.len(),
{
    if rs.len() > 0 {
        lemma_count_failed_bound(rs.drop_last(), sev);
    }
}

proof fn lemma_counts_within_total(rs: Seq<CheckResult>)
    ensures
        count_passed(rs) + count_failed_at(rs, Severity::Critical) + count_failed_at(
            rs,
            Severity::High,
        ) <= rs.len(),
    decreases rs.len(),
{
    if rs.len() > 0 {
        lemma_counts_within_total(rs.drop_last());
    }
}

proof fn lemma_all_passed(rs: Seq<CheckResult>)
    ensures
        count_passed(rs) == rs.len() <==> forall|i: int| 0 <= i < rs.len() ==> #[trigger] rs[i].passed,
    decreases rs.len(),
{
    if rs.len() > 0 {
        let init = rs.drop_last();
        lemma_all_passed(init);
        lemma_count_passed_bound(init);
        if forall|i: int| 0 <= i < rs.len() ==> #[trigger] rs[i].passed {
            assert forall|i: int| 0 <= i < init.len() implies #[trigger] init[i].passed by {
                assert(init[i] == rs[i]);
            }
            assert(rs[rs.len() - 1].passed);
        }
        if count_passed(rs) == rs.len() {
            assert forall|i: int| 0 <= i < rs.len() implies #[trigger] rs[i].passed by {
                if i < rs.len() - 1 {
                    assert(init[i] == rs[i]);
                }
            }
        }
    }
}

proof fn lemma_failed_at_positive(rs: Seq<CheckResult>, sev: Severity)
    ensures
        count_failed_at(rs, sev) > 0 <==> exists|i: int|
            0 <= i < rs.len() && !rs[i].passed && #[trigger] rs[i].severity == sev,
    decreases rs.len(),
{
    if rs.len() > 0 {
        let init = rs.drop_last();
        lemma_failed_at_positive(init, sev);
        if exists|i: int| 0 <= i < rs.len() && !rs[i].passed && #[trigger] rs[i].severity == sev {
            let i = choose|i: int| 0 <= i < rs.len() && !rs[i].passed && #[trigger] rs[i].severity == sev;
            if i < rs.len() - 1 {
                assert(init[i] == rs[i]);
            }
        }
        if count_failed_at(init, sev) > 0 {
            let i = choose|i: int| 0 <= i < init.len() && !init[i].passed && #[trigger] init[i].severity == sev;
            assert(init[i] == rs[i]);
        }
        if count_failed_at(rs, sev) > count_failed_at(init, sev) {
            assert(rs[rs.len() - 1].severity == sev);
        }
    }
}

/// Every result is counted once: the passed and the failed checks add up to
/// the total, and the critical and high failures are among the failures.
pub proof fn law_summary_counts(rs: Seq<CheckResult>)
    ensures
        summary_of(rs).0 == summary_of(rs).1 + summary_of(rs).2,
        summary_of(rs).3 + summary_of(rs).4 <= summary_of(rs).2,
{
    lemma_counts_within_total(rs);
}

/// The exit code of a report's summary: 0 exactly when every check passed,
/// 2 exactly when a critical or high check failed, and 1 when checks failed
/// but none of them critical or high.
pub proof fn law_exit_code(rs: Seq<CheckResult>)
    ensures
        ({
            let (total, passed, failed, critical, high) = summary_of(rs);
            let code = exit_code_for(failed, critical, high);
            let severe = exists|i: int|
                0 <= i < rs.len() && !rs[i].passed && (#[trigger] rs[i].severity == Severity::Critical
                    || rs[i].severity == Severity::High);
            &&& (code == 0 <==> forall|i: int| 0 <= i < rs.len() ==> #[trigger] rs[i].passed)
            &&& (code == 2 <==> severe)
            &&& (code == 1 <==> !severe && exists|i: int| 0 <= i < rs.len() && !#[trigger] rs[i].passed)
        }),
{
    lemma_counts_within_total(rs);
    lemma_count_passed_bound(rs);
    lemma_all_passed(rs);
    lemma_failed_at_positive(rs, Severity::Critical);
    lemma_failed_at_positive(rs, Severity::High);
    let severe = exists|i: int|
        0 <= i < rs.len() && !rs[i].passed && (#[trigger] rs[i].severity == Severity::Critical
            || rs[i].severity == Severity::High);
    if severe {
        let i = choose|i: int|
            0 <= i < rs.len() && !rs[i].passed && (#[trigger] rs[i].severity == Severity::Critical
                || rs[i].severity == Severity::High);
        if rs[i].severity == Severity::Critical {
            assert(count_failed_at(rs, Severity::Critical) > 0);
        } else {
            assert(count_failed_at(rs, Severity::High) > 0);
        }
    }
    if count_failed_at(rs, Severity::Critical) > 0 {
        let i = choose|i: int| 0 <= i < rs.len() && !rs[i].passed && #[trigger] rs[i].severity == Severity::Critical;
        assert(severe);
    }
    if count_failed_at(rs, Severity::High) > 0 {
        let i = choose|i: int| 0 <= i < rs.len() && !rs[i].passed && #[trigger] rs[i].severity == Severity::High;
        assert(severe);
    }
}

/// The summary counts of a result list.
pub open spec fn summary_of(rs: Seq<CheckResult>) -> (nat, nat, nat, nat, nat) {
    (
        rs.len(),
        count_passed(rs),
        (rs.len() - count_passed(rs)) as nat,
        count_failed_at(rs, Severity::Critical),
        count_failed_at(rs, Severity::High),
    )
}

/// The exit code that a summary calls for: 2 for critical or high findings,
/// 1 for other failures, 0 when everything passed.
pub open spec fn exit_code_for(failed: nat, critical: nat, high: nat) -> int {
    if critical > 0 || high > 0 {
        2
    } else if failed > 0 {
        1
    } else {
        0
    }
}

impl ScanReport {
    pub open spec fn summary_view(&self) -> (nat, nat, nat, nat, nat) {
        (
            self.summary.total as nat,
            self.summary.passed as nat,
            self.summary.failed as nat,
            self.summary.critical as nat,
            self.summary.high as nat,
        )
    }

    pub fn new(results: Vec<CheckResult>) -> (r: Self)
        ensures
            r.results@ == results@,
            r.summary_view() == summary_of(results@),
    {
        let total = results.len();
        let mut passed: usize = 0;
        let mut critical: usize = 0;
        let mut high: usize = 0;
        let mut k: usize = 0;
        while k < total
            invariant
                total == results.len(),
                k <= total,
                passed == count_passed(results@.take(k as int)),
                critical == count_failed_at(results@.take(k as int), Severity::Critical),
                high == count_failed_at(results@.take(k as int), Severity::High),
                passed <= k,
                critical <= k,
                high <= k,
            decreases total - k,
        {
            proof {
                assert(results@.take(k + 1).drop_last() == results@.take(k as int));
                lemma_count_passed_bound(results@.take(k as int));
                lemma_count_failed_bound(results@.take(k as int), Severity::Critical);
                lemma_count_failed_bound(results@.take(k as int), Severity::High);
            }
            let r = &results[k];
            if r.passed {
                passed = passed + 1;
            } else {
                match r.severity {
                    Severity::Critical => {
                        critical = critical + 1;
                    },
                    Severity::High => {
                        high = high + 1;
                    },
                    _ => {},
                }
            }
            k = k + 1;
        }
        assert(results@.take(total as int) == results@);
        ScanReport {
            results,
            summary: ScanSummary { total, passed, failed: total - passed, critical, high },
        }
    }

    pub fn exit_code(&self) -> (code: i32)
        ensures
            code == exit_code_for(
                self.summary.failed as nat,
                self.summary.critical as nat,
                self.summary.high as nat,
            ),
    {
        if self.summary.critical > 0 || self.summary.high > 0 {
            2
        } else if self.summary.failed > 0 {
            1
        } else {
            0
        }
    }
}

} // verus!
