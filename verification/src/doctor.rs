//! Audits a script for hardware safety and smoothness.
use crate::funscript::{
    inverted, lemma_sanitized_form, positions_valid, sanitized, speed_within, strictly_timed,
    too_fast, Action, Funscript,
};
use crate::text::{append_signed, decimal_int};
use vstd::prelude::*;
use vstd::string::*;

verus! {

#[derive(Debug, Clone, Copy, PartialEq, Eq, Structural)]
pub enum IssueSeverity {
    Info,
    Warning,
    Error,
}

/// One finding of an audit.
#[derive(Debug)]
pub struct DoctorIssue {
    pub timestamp_ms: i64,
    pub severity: IssueSeverity,
    pub description: String,
}

/// The contents of a [`DoctorIssue`].
#[verifier::ext_equal]
pub struct IssueView {
    pub timestamp_ms: i64,
    pub severity: IssueSeverity,
    pub description: Seq<char>,
}

impl View for DoctorIssue {
    type V = IssueView;

    open spec fn view(&self) -> IssueView {
        IssueView {
            timestamp_ms: self.timestamp_ms,
            severity: self.severity,
            description: self.description@,
        }
    }
}

/// What an audit found. The speeds themselves are those of the steps that
/// [`speed_steps`] lists.
#[derive(Debug)]
pub struct DoctorReport {
    pub total_actions: usize,
    pub duration_ms: i64,
    pub min_pos: i32,
    pub max_pos: i32,
    pub speed_samples: usize,
    pub speed_violations_count: usize,
    pub timing_inversions_count: usize,
    pub micro_jitter_count: usize,
    pub issues: Vec<DoctorIssue>,
}

/// The limits that an audit holds a script to.
#[derive(Debug, Clone, Copy, PartialEq, Eq, Structural)]
pub struct DoctorConfig {
    /// Maximum safe hardware speed in thousandths of a pos-unit per second (e.g. 400,000
    /// for 400 units/s)
    pub max_safe_milli: u64,
    /// Threshold in units to consider a micro-jitter (e.g. 2 units)
    pub micro_jitter_threshold: i32,
}

impl Default for DoctorConfig {
    fn default() -> (res: Self)
        ensures
            res.max_safe_milli == 450_000,
            res.micro_jitter_threshold == 2,
    {
        DoctorConfig { max_safe_milli: 450_000, micro_jitter_threshold: 2 }
    }
}

/// A move between two keyframes that lies in positive time.
#[derive(Debug, Clone, Copy, PartialEq, Eq, Structural)]
pub struct SpeedStep {
    /// How far the position moves
    pub dpos: i32,
    /// In how many milliseconds
    pub dt: i64,
}

/// The differences between neighbouring keyframes that are taken are in the range of
/// their types.
pub open spec fn steps_fit(s: Seq<Action>) -> bool {
    forall|i: int|
        1 <= i < s.len() ==> {
            &&& i64::MIN <= (#[trigger] s[i]).at - s[i - 1].at <= i64::MAX
            &&& s[i].at > s[i - 1].at ==> i32::MIN < s[i].pos - s[i - 1].pos <= i32::MAX
        }
}

/// The absolute value of `n`.
pub open spec fn magnitude(n: int) -> int {
    if n < 0 {
        -n
    } else {
        n
    }
}

/// How far step `i` moves.
pub open spec fn dpos_at(s: Seq<Action>, i: int) -> int {
    magnitude(s[i].pos - s[i - 1].pos)
}

/// How long step `i` takes.
pub open spec fn dt_at(s: Seq<Action>, i: int) -> int {
    s[i].at - s[i - 1].at
}

/// Step `i` goes nowhere in time, or back.
pub open spec fn is_inversion(s: Seq<Action>, i: int) -> bool {
    i > 0 && dt_at(s, i) <= 0
}

/// Step `i` lies in positive time and is faster than `limit` thousandths of a
/// unit per second.
pub open spec fn is_violation(s: Seq<Action>, limit: int, i: int) -> bool {
    i > 0 && dt_at(s, i) > 0 && too_fast(dpos_at(s, i), dt_at(s, i), limit)
}

/// Step `i` is a tiny motion in a short time.
pub open spec fn is_micro_jitter(s: Seq<Action>, threshold: int, i: int) -> bool {
    i > 0 && 0 < dt_at(s, i) < 80 && 0 < dpos_at(s, i) <= threshold
}

/// Keyframe `i` lies outside the valid range.
pub open spec fn is_out_of_range(s: Seq<Action>, i: int) -> bool {
    s[i].pos < 0 || s[i].pos > 100
}

pub open spec fn range_text(pos: int) -> Seq<char> {
    "Position "@ + decimal_int(pos) + " is outside valid range [0, 100]"@
}

pub open spec fn inversion_text(prev: int, cur: int) -> Seq<char> {
    "Non-increasing timestamp: prev "@ + decimal_int(prev) + "ms, cur "@ + decimal_int(cur)
        + "ms (delta "@ + decimal_int(cur - prev) + "ms)"@
}

pub open spec fn speed_text(label: Seq<char>, dpos: int, dt: int) -> Seq<char> {
    "Excessive hardware speed: "@ + label + " units/s (delta "@ + decimal_int(dpos) + " in "@
        + decimal_int(dt) + "ms)"@
}

pub open spec fn jitter_text(dpos: int, dt: int) -> Seq<char> {
    "Micro-jitter detected: tiny motion of "@ + decimal_int(dpos) + " units in "@ + decimal_int(dt)
        + "ms"@
}

/// `found` followed by an issue, if there is one.
pub open spec fn with_issue(
    found: Seq<IssueView>,
    present: bool,
    at: i64,
    severity: IssueSeverity,
    text: Seq<char>,
) -> Seq<IssueView> {
    if present {
        found.push(IssueView { timestamp_ms: at, severity, description: text })
    } else {
        found
    }
}

/// The issues of the first `n` keyframes: for each, first its range, then the
/// order of time, the speed and the jitter of the step that leads to it.
pub open spec fn issues_of(
    s: Seq<Action>,
    labels: Seq<String>,
    limit: int,
    threshold: int,
    n: nat,
) -> Seq<IssueView>
    decreases n,
{
    if n == 0 {
        Seq::empty()
    } else {
        let i = n - 1;
        let at = s[i].at;
        let a = issues_of(s, labels, limit, threshold, (n - 1) as nat);
        let b = with_issue(
            a,
            is_out_of_range(s, i),
            at,
            IssueSeverity::Error,
            range_text(s[i].pos as int),
        );
        let c = with_issue(
            b,
            is_inversion(s, i),
            at,
            IssueSeverity::Error,
            inversion_text(s[i - 1].at as int, at as int),
        );
        let d = with_issue(
            c,
            is_violation(s, limit, i),
            at,
            IssueSeverity::Warning,
            speed_text(labels[i - 1]@, dpos_at(s, i), dt_at(s, i)),
        );
        with_issue(
            d,
            is_micro_jitter(s, threshold, i),
            at,
            IssueSeverity::Info,
            jitter_text(dpos_at(s, i), dt_at(s, i)),
        )
    }
}

/// How many of the numbers below `n` have a property.
pub open spec fn count_below(n: nat, p: spec_fn(int) -> bool) -> nat
    decreases n,
{
    if n == 0 {
        0
    } else {
        count_below((n - 1) as nat, p) + if p(n - 1) {
            1nat
        } else {
            0nat
        }
    }
}

/// The smaller of 100 and the smallest position of the first `n` keyframes.
pub open spec fn lowest(s: Seq<Action>, n: nat) -> int
    decreases n,
{
    if n == 0 {
        100
    } else if s[n - 1].pos < lowest(s, (n - 1) as nat) {
        s[n - 1].pos as int
    } else {
        lowest(s, (n - 1) as nat)
    }
}

/// The larger of 0 and the largest position of the first `n` keyframes.
pub open spec fn highest(s: Seq<Action>, n: nat) -> int
    decreases n,
{
    if n == 0 {
        0
    } else if s[n - 1].pos > highest(s, (n - 1) as nat) {
        s[n - 1].pos as int
    } else {
        highest(s, (n - 1) as nat)
    }
}

/// The contents of a list of issues.
pub open spec fn issue_views(issues: Seq<DoctorIssue>) -> Seq<IssueView> {
    issues.map_values(|issue: DoctorIssue| issue@)
}

fn push_issue(
    issues: &mut Vec<DoctorIssue>,
    timestamp_ms: i64,
    severity: IssueSeverity,
    description: String,
)
    ensures
        issue_views(final(issues)@) == issue_views(old(issues)@).push(
            IssueView { timestamp_ms, severity, description: description@ },
        ),
{
    issues.push(DoctorIssue { timestamp_ms, severity, description });
    assert(issue_views(issues@) =~= issue_views(old(issues)@).push(
        IssueView { timestamp_ms, severity, description: description@ },
    ));
}

fn describe_range(pos: i32) -> (text: String)
    ensures
        text@ == range_text(pos as int),
{
    let mut text: String = "Position ".to_owned();
    append_signed(&mut text, pos as i64);
    text.append(" is outside valid range [0, 100]");
    text
}

fn describe_inversion(prev: i64, cur: i64, dt: i64) -> (text: String)
    requires
        dt == cur - prev,
    ensures
        text@ == inversion_text(prev as int, cur as int),
{
    let mut text: String = "Non-increasing timestamp: prev ".to_owned();
    append_signed(&mut text, prev);
    text.append("ms, cur ");
    append_signed(&mut text, cur);
    text.append("ms (delta ");
    append_signed(&mut text, dt);
    text.append("ms)");
    text
}

fn describe_speed(label: &str, dpos: i32, dt: i64) -> (text: String)
    ensures
        text@ == speed_text(label@, dpos as int, dt as int),
{
    let mut text: String = "Excessive hardware speed: ".to_owned();
    text.append(label);
    text.append(" units/s (delta ");
    append_signed(&mut text, dpos as i64);
    text.append(" in ");
    append_signed(&mut text, dt);
    text.append("ms)");
    text
}

fn describe_jitter(dpos: i32, dt: i64) -> (text: String)
    ensures
        text@ == jitter_text(dpos as int, dt as int),
{
    let mut text: String = "Micro-jitter detected: tiny motion of ".to_owned();
    append_signed(&mut text, dpos as i64);
    text.append(" units in ");
    append_signed(&mut text, dt);
    text.append("ms");
    text
}

/// The steps between neighbouring keyframes, `None` for one that lies in no
/// positive time. Step `i` leads to keyframe `i + 1`.
pub fn speed_steps(script: &Funscript) -> (steps: Vec<Option<SpeedStep>>)
    requires
        steps_fit(script.actions@),
    ensures
        script.actions.len() == 0 ==> steps.len() == 0,
        script.actions.len() > 0 ==> steps.len() == script.actions.len() - 1,
        forall|i: int|
            0 <= i < steps.len() ==> (#[trigger] steps@[i]) == (if dt_at(script.actions@, i + 1)
                > 0 {
                Some(
                    SpeedStep {
                        dpos: dpos_at(script.actions@, i + 1) as i32,
                        dt: dt_at(script.actions@, i + 1) as i64,
                    },
                )
            } else {
                None
            }),
{
    let mut steps: Vec<Option<SpeedStep>> = Vec::new();
    let ghost s = script.actions@;
    let mut i: usize = 1;
    while i < script.actions.len()
        invariant
            s == script.actions@,
            steps_fit(s),
            1 <= i,
            s.len() > 0 ==> i <= s.len(),
            s.len() == 0 ==> i == 1,
            steps.len() == i - 1,
            forall|k: int|
                0 <= k < steps.len() ==> (#[trigger] steps@[k]) == (if dt_at(s, k + 1) > 0 {
                    Some(
                        SpeedStep {
                            dpos: dpos_at(s, k + 1) as i32,
                            dt: dt_at(s, k + 1) as i64,
                        },
                    )
                } else {
                    None
                }),
        decreases script.actions.len() - i,
    {
        let prev: Action = script.actions[i - 1];
        let cur: Action = script.actions[i];
        assert(i64::MIN <= s[i as int].at - s[i - 1].at <= i64::MAX);
        let dt: i64 = cur.at - prev.at;
        if dt > 0 {
            let diff: i32 = cur.pos - prev.pos;
            let dpos: i32 = if diff < 0 {
                -diff
            } else {
                diff
            };
            steps.push(Some(SpeedStep { dpos, dt }));
        } else {
            steps.push(None);
        }
        i += 1;
    }
    steps
}

/// Whether a move of `dpos` units in `dt` milliseconds is faster than `limit`
/// thousandths of a unit per second.
pub fn is_too_fast(dpos: i32, dt: i64, limit: u64) -> (res: bool)
    ensures
        res == too_fast(dpos as int, dt as int, limit as int),
{
    proof {
        assert(-0x8000_0000_0000_0000 * 0xffff_ffff_ffff_ffff <= limit * dt
            <= 0x7fff_ffff_ffff_ffff * 0xffff_ffff_ffff_ffff) by (nonlinear_arith)
            requires
                0 <= limit <= 0xffff_ffff_ffff_ffff,
                -0x8000_0000_0000_0000 <= dt <= 0x7fff_ffff_ffff_ffff,
        ;
    }
    dpos as i128 * 1_000_000 > limit as i128 * dt as i128
}

/// Audit a funscript for hardware safety and smoothness. `labels[i]` is the speed of
/// the step that leads to keyframe `i + 1`, in units per second with one decimal; it is
/// read only where that step is too fast.
pub fn diagnose_funscript(
    script: &Funscript,
    config: &DoctorConfig,
    labels: &Vec<String>,
) -> (report: DoctorReport)
    requires
        steps_fit(script.actions@),
        labels.len() + 1 >= script.actions.len(),
    ensures
        ({
            let s = script.actions@;
            let n = s.len();
            let limit = config.max_safe_milli as int;
            let threshold = config.micro_jitter_threshold as int;
            if n == 0 {
                &&& report.total_actions == 0
                &&& report.duration_ms == 0
                &&& report.min_pos == 0
                &&& report.max_pos == 0
                &&& report.speed_samples == 0
                &&& report.speed_violations_count == 0
                &&& report.timing_inversions_count == 0
                &&& report.micro_jitter_count == 0
                &&& issue_views(report.issues@) == seq![
                    IssueView {
                        timestamp_ms: 0i64,
                        severity: IssueSeverity::Error,
                        description: "Funscript contains zero actions."@,
                    },
                ]
            } else {
                &&& report.total_actions == n
                &&& report.duration_ms == s.last().at
                &&& report.min_pos == lowest(s, n)
                &&& report.max_pos == highest(s, n)
                &&& report.speed_samples == count_below(n, |i: int| i > 0 && dt_at(s, i) > 0)
                &&& report.speed_violations_count == count_below(
                    n,
                    |i: int| is_violation(s, limit, i),
                )
                &&& report.timing_inversions_count == count_below(n, |i: int| is_inversion(s, i))
                &&& report.micro_jitter_count == count_below(
                    n,
                    |i: int| is_micro_jitter(s, threshold, i),
                )
                &&& issue_views(report.issues@) == issues_of(s, labels@, limit, threshold, n)
            }
        }),
{
    let mut issues: Vec<DoctorIssue> = Vec::new();
    let n: usize = script.actions.len();
    let ghost s = script.actions@;
    let ghost limit = config.max_safe_milli as int;
    let ghost threshold = config.micro_jitter_threshold as int;
    if n == 0 {
        push_issue(&mut issues, 0, IssueSeverity::Error, "Funscript contains zero actions.".to_owned());
        assert(issue_views(issues@) =~= seq![
            IssueView {
                timestamp_ms: 0i64,
                severity: IssueSeverity::Error,
                description: "Funscript contains zero actions."@,
            },
        ]);
        return DoctorReport {
            total_actions: 0,
            duration_ms: 0,
            min_pos: 0,
            max_pos: 0,
            speed_samples: 0,
            speed_violations_count: 0,
            timing_inversions_count: 0,
            micro_jitter_count: 0,
            issues,
        };
    }
    let mut min_pos: i32 = 100;
    let mut max_pos: i32 = 0;
    let mut speed_samples: usize = 0;
    let mut speed_violations: usize = 0;
    let mut timing_inversions: usize = 0;
    let mut micro_jitters: usize = 0;
    let mut i: usize = 0;
    assert(issue_views(issues@) =~= issues_of(s, labels@, limit, threshold, 0));
    while i < n
        invariant
            i <= n,
            n == s.len(),
            s == script.actions@,
            limit == config.max_safe_milli,
            threshold == config.micro_jitter_threshold,
            steps_fit(s),
            labels.len() + 1 >= n,
            min_pos == lowest(s, i as nat),
            max_pos == highest(s, i as nat),
            speed_samples == count_below(i as nat, |i: int| i > 0 && dt_at(s, i) > 0),
            speed_violations == count_below(i as nat, |i: int| is_violation(s, limit, i)),
            timing_inversions == count_below(i as nat, |i: int| is_inversion(s, i)),
            micro_jitters == count_below(i as nat, |i: int| is_micro_jitter(s, threshold, i)),
            speed_samples <= i,
            speed_violations <= i,
            timing_inversions <= i,
            micro_jitters <= i,
            issue_views(issues@) == issues_of(s, labels@, limit, threshold, i as nat),
        decreases n - i,
    {
        let cur: Action = script.actions[i];
        if cur.pos < min_pos {
            min_pos = cur.pos;
        }
        if cur.pos > max_pos {
            max_pos = cur.pos;
        }
        if cur.pos < 0 || cur.pos > 100 {
            push_issue(&mut issues, cur.at, IssueSeverity::Error, describe_range(cur.pos));
        }
        if i > 0 {
            let prev: Action = script.actions[i - 1];
            assert(i64::MIN <= s[i as int].at - s[i - 1].at <= i64::MAX);
            let dt: i64 = cur.at - prev.at;
            if dt <= 0 {
                timing_inversions += 1;
                push_issue(
                    &mut issues,
                    cur.at,
                    IssueSeverity::Error,
                    describe_inversion(prev.at, cur.at, dt),
                );
            } else {
                let diff: i32 = cur.pos - prev.pos;
                let dpos: i32 = if diff < 0 {
                    -diff
                } else {
                    diff
                };
                speed_samples += 1;
                if is_too_fast(dpos, dt, config.max_safe_milli) {
                    speed_violations += 1;
                    push_issue(
                        &mut issues,
                        cur.at,
                        IssueSeverity::Warning,
                        describe_speed(labels[i - 1].as_str(), dpos, dt),
                    );
                }
                if dpos > 0 && dpos <= config.micro_jitter_threshold && dt < 80 {
                    micro_jitters += 1;
                    push_issue(&mut issues, cur.at, IssueSeverity::Info, describe_jitter(dpos, dt));
                }
            }
        }
        i += 1;
    }
    DoctorReport {
        total_actions: n,
        duration_ms: script.actions[n - 1].at,
        min_pos,
        max_pos,
        speed_samples,
        speed_violations_count: speed_violations,
        timing_inversions_count: timing_inversions,
        micro_jitter_count: micro_jitters,
        issues,
    }
}

/// How many issues of a list have a severity.
pub open spec fn severity_count(issues: Seq<IssueView>, severity: IssueSeverity) -> nat
    decreases issues.len(),
{
    if issues.len() == 0 {
        0
    } else {
        severity_count(issues.drop_last(), severity) + if issues.last().severity == severity {
            1nat
        } else {
            0nat
        }
    }
}

proof fn lemma_severity_with_issue(
    found: Seq<IssueView>,
    present: bool,
    at: i64,
    severity: IssueSeverity,
    text: Seq<char>,
    counted: IssueSeverity,
)
    ensures
        severity_count(with_issue(found, present, at, severity, text), counted) == severity_count(
            found,
            counted,
        ) + if present && severity == counted {
            1nat
        } else {
            0nat
        },
{
    if present {
        let issue = IssueView { timestamp_ms: at, severity, description: text };
        assert(found.push(issue).drop_last() =~= found);
    }
}

/// The counts of a report are those of its issues: one warning for each speed
/// violation, one note for each micro-jitter, one error for each keyframe out
/// of range and each inversion.
pub proof fn lemma_counts_match_issues(
    s: Seq<Action>,
    labels: Seq<String>,
    limit: int,
    threshold: int,
    n: nat,
)
    ensures
        severity_count(issues_of(s, labels, limit, threshold, n), IssueSeverity::Warning) == count_below(
            n,
            |i: int| is_violation(s, limit, i),
        ),
        severity_count(issues_of(s, labels, limit, threshold, n), IssueSeverity::Info) == count_below(
            n,
            |i: int| is_micro_jitter(s, threshold, i),
        ),
        severity_count(issues_of(s, labels, limit, threshold, n), IssueSeverity::Error) == count_below(
            n,
            |i: int| is_out_of_range(s, i),
        ) + count_below(n, |i: int| is_inversion(s, i)),
    decreases n,
{
    if n > 0 {
        lemma_counts_match_issues(s, labels, limit, threshold, (n - 1) as nat);
        let i = n - 1;
        let at = s[i].at;
        let a = issues_of(s, labels, limit, threshold, (n - 1) as nat);
        let t1 = range_text(s[i].pos as int);
        let t2 = inversion_text(s[i - 1].at as int, at as int);
        let t3 = speed_text(labels[i - 1]@, dpos_at(s, i), dt_at(s, i));
        let t4 = jitter_text(dpos_at(s, i), dt_at(s, i));
        let b = with_issue(a, is_out_of_range(s, i), at, IssueSeverity::Error, t1);
        let c = with_issue(b, is_inversion(s, i), at, IssueSeverity::Error, t2);
        let d = with_issue(c, is_violation(s, limit, i), at, IssueSeverity::Warning, t3);
        assert forall|k: IssueSeverity|
            #[trigger] severity_count(issues_of(s, labels, limit, threshold, n), k) == severity_count(
                a,
                k,
            ) + (if is_out_of_range(s, i) && k == IssueSeverity::Error {
                1nat
            } else {
                0nat
            }) + (if is_inversion(s, i) && k == IssueSeverity::Error {
                1nat
            } else {
                0nat
            }) + (if is_violation(s, limit, i) && k == IssueSeverity::Warning {
                1nat
            } else {
                0nat
            }) + (if is_micro_jitter(s, threshold, i) && k == IssueSeverity::Info {
                1nat
            } else {
                0nat
            }) by {
            lemma_severity_with_issue(a, is_out_of_range(s, i), at, IssueSeverity::Error, t1, k);
            lemma_severity_with_issue(b, is_inversion(s, i), at, IssueSeverity::Error, t2, k);
            lemma_severity_with_issue(
                c,
                is_violation(s, limit, i),
                at,
                IssueSeverity::Warning,
                t3,
                k,
            );
            lemma_severity_with_issue(
                d,
                is_micro_jitter(s, threshold, i),
                at,
                IssueSeverity::Info,
                t4,
                k,
            );
        }
    }
}

/// A sanitized script that is not empty audits without an error: nothing is out of
/// range, no step goes back in time, and the lowest and the highest position are valid.
pub proof fn lemma_sanitized_audits_clean(
    actions: Seq<Action>,
    labels: Seq<String>,
    limit: int,
    threshold: int,
)
    requires
        actions.len() > 0,
    ensures
        ({
            let s = sanitized(actions);
            let n = s.len();
            let issues = issues_of(s, labels, limit, threshold, n);
            &&& n > 0
            &&& count_below(n, |i: int| is_inversion(s, i)) == 0
            &&& forall|k: int|
                0 <= k < issues.len() ==> (#[trigger] issues[k]).severity != IssueSeverity::Error
            &&& 0 <= lowest(s, n) <= highest(s, n) <= 100
        }),
{
    let s = sanitized(actions);
    lemma_sanitized_form(actions);
    lemma_clean_below(s, labels, limit, threshold, s.len());
}

proof fn lemma_clean_below(
    s: Seq<Action>,
    labels: Seq<String>,
    limit: int,
    threshold: int,
    n: nat,
)
    requires
        n <= s.len(),
        strictly_timed(s),
        positions_valid(s),
    ensures
        count_below(n, |i: int| is_inversion(s, i)) == 0,
        forall|k: int|
            0 <= k < issues_of(s, labels, limit, threshold, n).len() ==> (#[trigger] issues_of(
                s,
                labels,
                limit,
                threshold,
                n,
            )[k]).severity != IssueSeverity::Error,
        0 <= lowest(s, n) <= 100,
        0 <= highest(s, n) <= 100,
        n > 0 ==> lowest(s, n) <= highest(s, n),
    decreases n,
{
    if n > 0 {
        lemma_clean_below(s, labels, limit, threshold, (n - 1) as nat);
        assert(0 <= s[n - 1].pos <= 100);
        if n > 1 {
            assert(s[n - 2].at < s[n - 1].at);
        }
    }
}

/// A script whose speeds were fixed audits without a speed violation.
pub proof fn lemma_fixed_audits_safe(s: Seq<Action>, limit: int, n: nat)
    requires
        n <= s.len(),
        speed_within(s, limit),
    ensures
        count_below(n, |i: int| is_violation(s, limit, i)) == 0,
    decreases n,
{
    if n > 0 {
        lemma_fixed_audits_safe(s, limit, (n - 1) as nat);
        if n > 1 {
            assert(!too_fast(s[n - 1].pos - s[n - 2].pos, s[n - 1].at - s[n - 2].at, limit));
            assert(!is_violation(s, limit, n - 1));
        }
    }
}

/// A count is the number of places that have the property.
pub proof fn lemma_count_is_number(n: nat, p: spec_fn(int) -> bool)
    ensures
        Set::<int>::new(|i: int| 0 <= i < n && p(i)).finite(),
        count_below(n, p) == Set::<int>::new(|i: int| 0 <= i < n && p(i)).len(),
    decreases n,
{
    let all = Set::<int>::new(|i: int| 0 <= i < n && p(i));
    if n == 0 {
        assert(all =~= Set::empty());
    } else {
        let m = (n - 1) as nat;
        let fewer = Set::<int>::new(|i: int| 0 <= i < m && p(i));
        lemma_count_is_number(m, p);
        if p(n - 1) {
            assert(all =~= fewer.insert(n - 1));
        } else {
            assert(all =~= fewer);
        }
    }
}

proof fn lemma_count_zero(n: nat, p: spec_fn(int) -> bool, i: int)
    requires
        0 <= i < n,
        count_below(n, p) == 0,
    ensures
        !p(i),
    decreases n,
{
    if i < n - 1 {
        lemma_count_zero((n - 1) as nat, p, i);
    }
}

/// An audit that counts no speed violation vouches for the speeds: no step of a script
/// whose times strictly increase, up or down, is faster than the limit. One that counts
/// no inversion vouches for the times.
pub proof fn lemma_clean_audit_is_safe(s: Seq<Action>, limit: int)
    ensures
        strictly_timed(s) && count_below(s.len(), |i: int| is_violation(s, limit, i)) == 0
            ==> speed_within(s, limit),
        count_below(s.len(), |i: int| is_inversion(s, i)) == 0 ==> forall|i: int|
            0 < i < s.len() ==> s[i - 1].at < (#[trigger] s[i]).at,
{
    let too = |i: int| is_violation(s, limit, i);
    let back = |i: int| is_inversion(s, i);
    if strictly_timed(s) && count_below(s.len(), too) == 0 {
        assert forall|i: int| 1 <= i < s.len() implies !too_fast(
            (#[trigger] s[i]).pos - s[i - 1].pos,
            s[i].at - s[i - 1].at,
            limit,
        ) && !too_fast(s[i - 1].pos - s[i].pos, s[i].at - s[i - 1].at, limit) by {
            assert(s[i - 1].at < s[i].at);
            lemma_count_zero(s.len(), too, i);
            assert(!is_violation(s, limit, i));
            let d = s[i].pos - s[i - 1].pos;
            let reach = limit * (s[i].at - s[i - 1].at);
            assert(dpos_at(s, i) * 1_000_000 <= reach);
            assert(d <= dpos_at(s, i) && -d <= dpos_at(s, i));
        }
    }
    if count_below(s.len(), back) == 0 {
        assert forall|i: int| 0 < i < s.len() implies s[i - 1].at < (#[trigger] s[i]).at by {
            lemma_count_zero(s.len(), back, i);
        }
    }
}

/// A script and its inverse have the same speed violations and the same micro-jitters:
/// it makes no difference whether a move goes up or down.
pub proof fn lemma_audit_of_inverted(s: Seq<Action>, limit: int, threshold: int, n: nat)
    requires
        positions_valid(s),
        n <= s.len(),
    ensures
        count_below(n, |i: int| is_violation(inverted(s), limit, i)) == count_below(
            n,
            |i: int| is_violation(s, limit, i),
        ),
        count_below(n, |i: int| is_micro_jitter(inverted(s), threshold, i)) == count_below(
            n,
            |i: int| is_micro_jitter(s, threshold, i),
        ),
    decreases n,
{
    if n > 0 {
        lemma_audit_of_inverted(s, limit, threshold, (n - 1) as nat);
        let i = n - 1;
        let t = inverted(s);
        if i > 0 {
            assert(0 <= s[i].pos <= 100);
            assert(0 <= s[i - 1].pos <= 100);
            assert(t[i].pos == 100 - s[i].pos && t[i - 1].pos == 100 - s[i - 1].pos);
            assert(dpos_at(t, i) == dpos_at(s, i));
            assert(dt_at(t, i) == dt_at(s, i));
        }
    }
}

proof fn lemma_issues_grow(
    s: Seq<Action>,
    labels: Seq<String>,
    limit: int,
    threshold: int,
    m: nat,
    n: nat,
    issue: IssueView,
)
    requires
        m <= n,
        issues_of(s, labels, limit, threshold, m).contains(issue),
    ensures
        issues_of(s, labels, limit, threshold, n).contains(issue),
    decreases n,
{
    if m < n {
        lemma_issues_grow(s, labels, limit, threshold, m, (n - 1) as nat, issue);
        let b = issues_of(s, labels, limit, threshold, (n - 1) as nat);
        let a = issues_of(s, labels, limit, threshold, n);
        let k = choose|k: int| 0 <= k < b.len() && b[k] == issue;
        assert(a[k] == issue);
    }
}

proof fn lemma_issue_kept(
    found: Seq<IssueView>,
    issue: IssueView,
    present: bool,
    at: i64,
    severity: IssueSeverity,
    text: Seq<char>,
)
    ensures
        found.contains(issue) ==> with_issue(found, present, at, severity, text).contains(issue),
        present ==> with_issue(found, present, at, severity, text).contains(
            IssueView { timestamp_ms: at, severity, description: text },
        ),
{
    let w = with_issue(found, present, at, severity, text);
    if found.contains(issue) {
        let k = choose|k: int| 0 <= k < found.len() && found[k] == issue;
        assert(w[k] == issue);
    }
    if present {
        assert(w[found.len() as int] == (IssueView { timestamp_ms: at, severity, description: text }));
    }
}

/// Every fault of a keyframe is reported at its time: a position outside the range and
/// a time that does not increase as errors, a move that is too fast, up or down, as a
/// warning, and a tiny move in a short time as a note.
pub proof fn lemma_faults_are_reported(
    s: Seq<Action>,
    labels: Seq<String>,
    limit: int,
    threshold: int,
    n: nat,
    i: int,
)
    requires
        0 <= i < n <= s.len(),
    ensures
        ({
            let found = issues_of(s, labels, limit, threshold, n);
            let at = s[i].at;
            let dt = s[i].at - s[i - 1].at;
            let up = s[i].pos - s[i - 1].pos;
            let size = if up < 0 {
                -up
            } else {
                up
            };
            &&& s[i].pos < 0 || s[i].pos > 100 ==> found.contains(
                IssueView {
                    timestamp_ms: at,
                    severity: IssueSeverity::Error,
                    description: "Position "@ + decimal_int(s[i].pos as int)
                        + " is outside valid range [0, 100]"@,
                },
            )
            &&& i > 0 && dt <= 0 ==> found.contains(
                IssueView {
                    timestamp_ms: at,
                    severity: IssueSeverity::Error,
                    description: "Non-increasing timestamp: prev "@ + decimal_int(
                        s[i - 1].at as int,
                    ) + "ms, cur "@ + decimal_int(at as int) + "ms (delta "@ + decimal_int(dt)
                        + "ms)"@,
                },
            )
            &&& i > 0 && dt > 0 && (up * 1_000_000 > limit * dt || -up * 1_000_000 > limit * dt)
                ==> found.contains(
                IssueView {
                    timestamp_ms: at,
                    severity: IssueSeverity::Warning,
                    description: "Excessive hardware speed: "@ + labels[i - 1]@
                        + " units/s (delta "@ + decimal_int(size) + " in "@ + decimal_int(dt)
                        + "ms)"@,
                },
            )
            &&& i > 0 && 0 < dt < 80 && 0 < size <= threshold ==> found.contains(
                IssueView {
                    timestamp_ms: at,
                    severity: IssueSeverity::Info,
                    description: "Micro-jitter detected: tiny motion of "@ + decimal_int(size)
                        + " units in "@ + decimal_int(dt) + "ms"@,
                },
            )
        }),
{
    let m = (i + 1) as nat;
    let at = s[i].at;
    let a = issues_of(s, labels, limit, threshold, i as nat);
    let t1 = range_text(s[i].pos as int);
    let t2 = inversion_text(s[i - 1].at as int, at as int);
    let t3 = speed_text(labels[i - 1]@, dpos_at(s, i), dt_at(s, i));
    let t4 = jitter_text(dpos_at(s, i), dt_at(s, i));
    let p1 = is_out_of_range(s, i);
    let p2 = is_inversion(s, i);
    let p3 = is_violation(s, limit, i);
    let p4 = is_micro_jitter(s, threshold, i);
    let i1 = IssueView { timestamp_ms: at, severity: IssueSeverity::Error, description: t1 };
    let i2 = IssueView { timestamp_ms: at, severity: IssueSeverity::Error, description: t2 };
    let i3 = IssueView { timestamp_ms: at, severity: IssueSeverity::Warning, description: t3 };
    let i4 = IssueView { timestamp_ms: at, severity: IssueSeverity::Info, description: t4 };
    let b = with_issue(a, p1, at, IssueSeverity::Error, t1);
    let c = with_issue(b, p2, at, IssueSeverity::Error, t2);
    let d = with_issue(c, p3, at, IssueSeverity::Warning, t3);
    lemma_issue_kept(a, i1, p1, at, IssueSeverity::Error, t1);
    lemma_issue_kept(b, i1, p2, at, IssueSeverity::Error, t2);
    lemma_issue_kept(c, i1, p3, at, IssueSeverity::Warning, t3);
    lemma_issue_kept(c, i2, p3, at, IssueSeverity::Warning, t3);
    lemma_issue_kept(d, i1, p4, at, IssueSeverity::Info, t4);
    lemma_issue_kept(d, i2, p4, at, IssueSeverity::Info, t4);
    lemma_issue_kept(d, i3, p4, at, IssueSeverity::Info, t4);
    if p1 {
        lemma_issues_grow(s, labels, limit, threshold, m, n, i1);
    }
    if p2 {
        lemma_issues_grow(s, labels, limit, threshold, m, n, i2);
    }
    if p3 {
        lemma_issues_grow(s, labels, limit, threshold, m, n, i3);
    }
    if p4 {
        lemma_issues_grow(s, labels, limit, threshold, m, n, i4);
    }
}

/// The lowest and the highest position of a report bound those of all keyframes, and
/// each is a keyframe's where there is one below 100 or above 0.
pub proof fn lemma_range_of_positions(s: Seq<Action>, n: nat)
    requires
        n <= s.len(),
    ensures
        forall|i: int| 0 <= i < n ==> lowest(s, n) <= (#[trigger] s[i]).pos <= highest(s, n),
        lowest(s, n) <= 100,
        highest(s, n) >= 0,
        lowest(s, n) < 100 ==> exists|i: int| 0 <= i < n && (#[trigger] s[i]).pos == lowest(s, n),
        highest(s, n) > 0 ==> exists|i: int| 0 <= i < n && (#[trigger] s[i]).pos == highest(s, n),
    decreases n,
{
    if n > 0 {
        lemma_range_of_positions(s, (n - 1) as nat);
        assert(s[n - 1].pos == s[n - 1].pos);
    }
}

} // verus!
