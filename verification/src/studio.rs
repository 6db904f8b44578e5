//! The tools of the studio: repairs, transformations and infills of the active
//! script, and what other views put into the editor.
use crate::axis::{axes_below, axis_label, empty_script, AxisChannel, MultiAxisScript};
use crate::editor::{counted_text, say_count, EditOutcome, Editor};
use crate::funscript::{
    allowed_moves, clamped, clone_actions, hardly_moves_after, inverted, lemma_only_jitters_removed,
    lemma_sanitized_form, limited_actions, moved_count, outside, remove_range, sanitized,
    sorted_by_time, speed_within, without_jitters, Action, Funscript, FunscriptView, InfillPattern,
};
use crate::history::HistoryView;
use crate::scurve::{
    blend_of, densified, preset_label, sample_times, smooth_funscript, zones_fit, SCurvePreset,
};
use crate::text::{append_decimal, append_signed, decimal, decimal_int};
use crate::timeline::TimelineState;
use vstd::prelude::*;
use vstd::string::*;

verus! {

/// The speed that repairs keep to, in thousandths of a unit per second.
pub const SAFE_SPEED: u64 = 450_000;

/// The keyframes with moves limited to what the motor can follow.
pub open spec fn speed_fixed(s: Seq<Action>) -> Seq<Action> {
    if s.len() < 2 {
        s
    } else {
        limited_actions(sanitized(s), allowed_moves(sanitized(s), SAFE_SPEED as int))
    }
}

/// How many keyframes the limit moves.
pub open spec fn speed_fixes(s: Seq<Action>) -> nat {
    if s.len() < 2 {
        0
    } else {
        let t = sanitized(s);
        moved_count(t, allowed_moves(t, SAFE_SPEED as int), t.len())
    }
}

/// The keyframes without those that a hand would not have made.
pub open spec fn calmed(s: Seq<Action>) -> Seq<Action> {
    if s.len() < 3 {
        s
    } else {
        without_jitters(sanitized(s), 20, 2)
    }
}

/// How many keyframes that takes away, of those that are in proper form.
pub open spec fn calmed_away(s: Seq<Action>) -> int {
    if s.len() < 3 {
        0
    } else {
        sanitized(s).len() - calmed(s).len()
    }
}

/// The report on a full repair.
pub open spec fn repair_text(clamped: nat, jitters: nat, duplicates: nat) -> Seq<char> {
    "Safe Auto-Repair complete: clamped "@ + decimal(clamped) + " speeds, removed "@ + decimal(
        jitters,
    ) + " jitters, deduplicated "@ + decimal(duplicates) + " points"@
}

impl Editor {
    /// Only the keyframes changed, and the state before is remembered.
    pub open spec fn is_edit_of(&self, before: &Editor, actions: Seq<Action>) -> bool {
        &&& self.wf()
        &&& self.same_scene(before)
        &&& self.timeline == before.timeline
        &&& self.remembers(before)
        &&& self.has_actions(before, actions)
    }

    /// Fixes all issues: limits speeds, removes jitters, sorts and deduplicates.
    pub fn repair_all(&mut self) -> (outcome: EditOutcome)
        requires
            old(self).wf(),
        ensures
            ({
                let s = old(self).script.actions@;
                let calm = calmed(speed_fixed(s));
                &&& final(self).is_edit_of(&*old(self), sanitized(calm))
                &&& outcome.is_change(
                    repair_text(
                        speed_fixes(s),
                        calmed_away(speed_fixed(s)) as nat,
                        (calm.len() - sanitized(calm).len()) as nat,
                    ),
                )
            }),
    {
        self.history.push_snapshot(&self.script);
        let clamped: usize = self.script.fix_speed_violations(SAFE_SPEED);
        let ghost fixed = self.script.actions@;
        assert(fixed =~= speed_fixed(old(self).script.actions@));
        let jitters: usize = self.script.remove_micro_jitters(20, 2);
        assert(self.script.actions@ =~= calmed(fixed));
        let initial: usize = self.script.actions.len();
        self.script.sanitize();
        let duplicates: usize = initial - self.script.actions.len();
        let mut status: String = "Safe Auto-Repair complete: clamped ".to_owned();
        append_decimal(&mut status, clamped as u64);
        status.append(" speeds, removed ");
        append_decimal(&mut status, jitters as u64);
        status.append(" jitters, deduplicated ");
        append_decimal(&mut status, duplicates as u64);
        status.append(" points");
        EditOutcome::change(status)
    }

    /// Limits the speeds.
    pub fn repair_speeds(&mut self) -> (outcome: EditOutcome)
        requires
            old(self).wf(),
        ensures
            final(self).is_edit_of(&*old(self), speed_fixed(old(self).script.actions@)),
            old(self).script.actions.len() >= 2 ==> speed_within(
                final(self).script.actions@,
                SAFE_SPEED as int,
            ),
            outcome.is_change(
                counted_text(
                    "Clamped "@,
                    speed_fixes(old(self).script.actions@),
                    " speed violations to safe limits"@,
                ),
            ),
    {
        self.history.push_snapshot(&self.script);
        let fixed: usize = self.script.fix_speed_violations(SAFE_SPEED);
        assert(self.script.actions@ =~= speed_fixed(old(self).script.actions@));
        EditOutcome::change(say_count("Clamped ", fixed, " speed violations to safe limits"))
    }

    /// Removes the jitters.
    pub fn repair_jitters(&mut self) -> (outcome: EditOutcome)
        requires
            old(self).wf(),
        ensures
            final(self).is_edit_of(&*old(self), calmed(old(self).script.actions@)),
            outcome.is_change(
                counted_text(
                    "Removed "@,
                    calmed_away(old(self).script.actions@) as nat,
                    " micro-jitter keyframes"@,
                ),
            ),
    {
        self.history.push_snapshot(&self.script);
        let removed: usize = self.script.remove_micro_jitters(20, 2);
        EditOutcome::change(say_count("Removed ", removed, " micro-jitter keyframes"))
    }

    /// Sorts and deduplicates.
    pub fn repair_order(&mut self) -> (outcome: EditOutcome)
        requires
            old(self).wf(),
        ensures
            final(self).is_edit_of(&*old(self), sanitized(old(self).script.actions@)),
            outcome.is_change(
                counted_text(
                    "Deduplicated "@,
                    (old(self).script.actions.len() - sanitized(old(self).script.actions@).len())
                        as nat,
                    " redundant actions"@,
                ),
            ),
    {
        self.history.push_snapshot(&self.script);
        let initial: usize = self.script.actions.len();
        self.script.sanitize();
        let removed: usize = initial - self.script.actions.len();
        EditOutcome::change(say_count("Deduplicated ", removed, " redundant actions"))
    }

    /// Deletes the keyframe that was selected last, if it is there; `said` is what
    /// is said of it.
    pub fn delete_inspected(&mut self, said: &str) -> (outcome: EditOutcome)
        requires
            old(self).wf(),
        ensures
            final(self).wf(),
            final(self).same_scene(&*old(self)),
            match old(self).timeline.selected_index {
                Some(idx) if idx < old(self).script.actions.len() => {
                    &&& final(self).remembers(&*old(self))
                    &&& final(self).has_actions(
                        &*old(self),
                        old(self).script.actions@.remove(idx as int),
                    )
                    &&& final(self).timeline == (TimelineState {
                        selected_index: None,
                        ..old(self).timeline
                    })
                    &&& outcome.is_change(said@)
                },
                _ => outcome.is_nothing() && *final(self) == *old(self),
            },
    {
        if let Some(idx) = self.timeline.selected_index {
            if idx < self.script.actions.len() {
                self.history.push_snapshot(&self.script);
                let _ = self.script.actions.remove(idx);
                self.timeline.selected_index = None;
                return EditOutcome::change(said.to_owned());
            }
        }
        EditOutcome::nothing()
    }

    /// Inverts every position; `said` is what is said of it.
    pub fn invert_all(&mut self, said: &str) -> (outcome: EditOutcome)
        requires
            old(self).wf(),
        ensures
            final(self).is_edit_of(&*old(self), inverted(old(self).script.actions@)),
            outcome.is_change(said@),
    {
        self.history.push_snapshot(&self.script);
        self.script.invert_positions();
        EditOutcome::change(said.to_owned())
    }

    /// Gives every keyframe its scaled position; `said` is what is said of it.
    pub fn scale_all(&mut self, scaled: &Vec<i32>, said: &str) -> (outcome: EditOutcome)
        requires
            old(self).wf(),
            scaled.len() == old(self).script.actions.len(),
        ensures
            final(self).is_edit_of(
                &*old(self),
                Seq::new(
                    scaled@.len(),
                    |i: int|
                        Action { at: old(self).script.actions@[i].at, pos: clamped(scaled@[i]) },
                ),
            ),
            outcome.is_change(said@),
    {
        self.history.push_snapshot(&self.script);
        self.script.scale_amplitude(scaled);
        assert(self.script.actions@ =~= Seq::new(
            scaled@.len(),
            |i: int| Action { at: old(self).script.actions@[i].at, pos: clamped(scaled@[i]) },
        ));
        EditOutcome::change(said.to_owned())
    }

    /// Fills a range with the points of a periodic pattern.
    pub fn infill(
        &mut self,
        pattern: InfillPattern,
        start_at: i64,
        end_at: i64,
        freq_positive: bool,
        points: &Vec<Action>,
    ) -> (outcome: EditOutcome)
        requires
            old(self).wf(),
        ensures
            final(self).is_edit_of(
                &*old(self),
                if start_at < end_at && freq_positive {
                    sanitized(outside(old(self).script.actions@, start_at, end_at) + points@)
                } else {
                    old(self).script.actions@
                },
            ),
            outcome.is_change(
                "Generated "@ + pattern_name(pattern) + " infill on "@ + axis_label(
                    old(self).active_axis,
                ) + " ("@ + decimal_int(start_at as int) + "ms - "@ + decimal_int(end_at as int)
                    + "ms)"@,
            ),
    {
        self.history.push_snapshot(&self.script);
        self.script.infill_pattern(start_at, end_at, freq_positive, points);
        let mut status: String = "Generated ".to_owned();
        match pattern {
            InfillPattern::Sine => status.append("Sine"),
            InfillPattern::Triangle => status.append("Triangle"),
            InfillPattern::Sawtooth => status.append("Sawtooth"),
        }
        status.append(" infill on ");
        status.append(self.active_axis.display_name());
        status.append(" (");
        append_signed(&mut status, start_at);
        status.append("ms - ");
        append_signed(&mut status, end_at);
        status.append("ms)");
        EditOutcome::change(status)
    }

    /// Smooths the script for good, with samples of the curve; nothing happens
    /// where smoothing is off.
    pub fn apply_smoothing(&mut self, preset: SCurvePreset, samples: &Vec<i32>) -> (outcome:
        EditOutcome)
        requires
            old(self).wf(),
            preset != SCurvePreset::Off && old(self).script.actions.len() >= 3 ==> zones_fit(
                old(self).script.actions@,
                blend_of(preset) as int,
            ),
            samples.len() == sample_times(old(self).script.actions@, blend_of(preset) as int).len(),
        ensures
            final(self).wf(),
            final(self).same_scene(&*old(self)),
            final(self).timeline == old(self).timeline,
            final(self).history == old(self).history,
            preset == SCurvePreset::Off ==> {
                &&& *final(self) == *old(self)
                &&& outcome.is_remark("S-curve filter is set to Off (raw linear)"@)
            },
            preset != SCurvePreset::Off ==> {
                &&& final(self).script@ == smoothed(old(self).script@, blend_of(preset), samples@)
                &&& outcome.is_change(
                    smoothing_text(
                        preset,
                        old(self).script.actions@.len(),
                        final(self).script.actions@.len(),
                    ),
                )
            },
    {
        let blend_ms: i64 = preset.blend_radius_ms();
        if blend_ms > 0 {
            let prev_len: usize = self.script.actions.len();
            self.script = smooth_funscript(&self.script, blend_ms, samples);
            assert(self.script@ =~= smoothed(old(self).script@, blend_of(preset), samples@));
            EditOutcome::change(say_smoothing(preset, prev_len, self.script.actions.len()))
        } else {
            EditOutcome::remark("S-curve filter is set to Off (raw linear)".to_owned())
        }
    }
}

/// The name of a pattern.
pub open spec fn pattern_name(pattern: InfillPattern) -> Seq<char> {
    match pattern {
        InfillPattern::Sine => "Sine"@,
        InfillPattern::Triangle => "Triangle"@,
        InfillPattern::Sawtooth => "Sawtooth"@,
    }
}

/// The report on a smoothing.
pub open spec fn smoothing_text(preset: SCurvePreset, from: nat, to: nat) -> Seq<char> {
    "Applied "@ + preset_label(preset) + " S-curve smoothing (densified from "@ + decimal(from)
        + " to "@ + decimal(to) + " actions)"@
}

fn say_smoothing(preset: SCurvePreset, from: usize, to: usize) -> (status: String)
    ensures
        status@ == smoothing_text(preset, from as nat, to as nat),
{
    let mut status: String = "Applied ".to_owned();
    status.append(preset.display_name());
    status.append(" S-curve smoothing (densified from ");
    append_decimal(&mut status, from as u64);
    status.append(" to ");
    append_decimal(&mut status, to as u64);
    status.append(" actions)");
    status
}

/// A script smoothed with samples of its curve.
pub open spec fn smoothed(script: FunscriptView, radius: i64, samples: Seq<i32>) -> FunscriptView {
    if script.actions.len() < 3 || radius <= 0 {
        script
    } else {
        FunscriptView {
            version: "1.0"@,
            actions: sanitized(
                densified(script.actions, sample_times(script.actions, radius as int), samples),
            ),
            metadata: None,
        }
    }
}

/// The keyframes before `start`, in their order.
pub open spec fn before_time(s: Seq<Action>, start: i64) -> Seq<Action> {
    s.filter(|a: Action| a.at < start)
}

/// The keyframes from `start` on that are behind `end`, in their order.
pub open spec fn after_time(s: Seq<Action>, start: i64, end: i64) -> Seq<Action> {
    s.filter(|a: Action| a.at >= start && a.at > end)
}

/// The keyframes from `start` to `end`, in their order.
pub open spec fn within_times(s: Seq<Action>, start: i64, end: i64) -> Seq<Action> {
    s.filter(|a: Action| start <= a.at && a.at <= end)
}

/// The keyframes parted by a range: those before it, in it and after it.
pub fn split_range(actions: &Vec<Action>, start: i64, end: i64) -> (parts: (
    Vec<Action>,
    Vec<Action>,
    Vec<Action>,
))
    ensures
        parts.0@ == before_time(actions@, start),
        parts.1@ == within_times(actions@, start, end),
        parts.2@ == after_time(actions@, start, end),
{
    let mut before: Vec<Action> = Vec::new();
    let mut inside: Vec<Action> = Vec::new();
    let mut after: Vec<Action> = Vec::new();
    proof {
        reveal(Seq::filter);
        assert(actions@.take(0) =~= Seq::empty());
    }
    let mut i: usize = 0;
    while i < actions.len()
        invariant
            i <= actions.len(),
            before@ == before_time(actions@.take(i as int), start),
            inside@ == within_times(actions@.take(i as int), start, end),
            after@ == after_time(actions@.take(i as int), start, end),
        decreases actions.len() - i,
    {
        let a: Action = actions[i];
        proof {
            reveal(Seq::filter);
            assert(actions@.take(i + 1).drop_last() =~= actions@.take(i as int));
            assert(actions@.take(i + 1).last() == a);
        }
        if a.at < start {
            before.push(a);
        } else if a.at > end {
            after.push(a);
        } else {
            inside.push(a);
        }
        i += 1;
    }
    assert(actions@.take(i as int) =~= actions@);
    (before, inside, after)
}

fn push_all(out: &mut Vec<Action>, more: &Vec<Action>)
    ensures
        final(out)@ == old(out)@ + more@,
{
    let mut i: usize = 0;
    while i < more.len()
        invariant
            i <= more.len(),
            out@ == old(out)@ + more@.take(i as int),
        decreases more.len() - i,
    {
        out.push(more[i]);
        assert(more@.take(i + 1) =~= more@.take(i as int).push(more@[i as int]));
        i += 1;
    }
    assert(more@.take(i as int) =~= more@);
}

/// The report on a plugin applied to a range.
pub open spec fn plugin_range_text(name: Seq<char>, start: int, end: int) -> Seq<char> {
    "Applied plugin '"@ + name + "' to viewport range ("@ + decimal_int(start) + "ms - "@
        + decimal_int(end) + "ms)"@
}

fn say_plugin_range(name: &str, start: i64, end: i64) -> (status: String)
    ensures
        status@ == plugin_range_text(name@, start as int, end as int),
{
    let mut status: String = "Applied plugin '".to_owned();
    status.append(name);
    status.append("' to viewport range (");
    append_signed(&mut status, start);
    status.append("ms - ");
    append_signed(&mut status, end);
    status.append("ms)");
    status
}

/// The report on a plugin applied to the whole script.
pub open spec fn plugin_text(name: Seq<char>, count: nat) -> Seq<char> {
    "Applied plugin '"@ + name + "' across "@ + decimal(count) + " actions"@
}

fn say_plugin(name: &str, count: usize) -> (status: String)
    ensures
        status@ == plugin_text(name@, count as nat),
{
    let mut status: String = "Applied plugin '".to_owned();
    status.append(name);
    status.append("' across ");
    append_decimal(&mut status, count as u64);
    status.append(" actions");
    status
}

/// The report on a plugin that failed.
pub open spec fn plugin_failure_text(error: Seq<char>) -> Seq<char> {
    "Plugin execution failed: "@ + error
}

fn say_plugin_failure(error: &str) -> (status: String)
    ensures
        status@ == plugin_failure_text(error@),
{
    let mut status: String = "Plugin execution failed: ".to_owned();
    status.append(error);
    status
}

impl Editor {
    /// The keyframes that a plugin gets: those in the range, or all. Where the
    /// range holds none, this is said instead.
    pub fn plugin_input(&self, range: Option<(i64, i64)>) -> (input: Result<
        Vec<Action>,
        EditOutcome,
    >)
        ensures
            input is Err <==> (range matches Some((start, end)) && within_times(
                self.script.actions@,
                start,
                end,
            ).len() == 0),
            input matches Ok(actions) ==> actions@ == (match range {
                Some((start, end)) => within_times(self.script.actions@, start, end),
                None => self.script.actions@,
            }),
            input matches Err(outcome) ==> outcome.is_remark(
                "No keyframes inside current viewport range to transform."@,
            ),
    {
        match range {
            Some((start, end)) => {
                let (_, inside, _) = split_range(&self.script.actions, start, end);
                if inside.len() == 0 {
                    Err(
                        EditOutcome::remark(
                            "No keyframes inside current viewport range to transform.".to_owned(),
                        ),
                    )
                } else {
                    Ok(inside)
                }
            },
            None => Ok(clone_actions(&self.script.actions)),
        }
    }

    /// Puts what a plugin made of its input in that input's place.
    pub fn apply_current_plugin(
        &mut self,
        range: Option<(i64, i64)>,
        name: &str,
        result: Result<Vec<Action>, String>,
    ) -> (outcome: EditOutcome)
        requires
            old(self).wf(),
        ensures
            match result {
                Ok(transformed) => {
                    let s = old(self).script.actions@;
                    let combined = match range {
                        Some((start, end)) => before_time(s, start) + transformed@ + after_time(
                            s,
                            start,
                            end,
                        ),
                        None => transformed@,
                    };
                    &&& final(self).is_edit_of(&*old(self), sanitized(combined))
                    &&& outcome.is_change(
                        match range {
                            Some((start, end)) => plugin_range_text(
                                name@,
                                start as int,
                                end as int,
                            ),
                            None => plugin_text(name@, sanitized(combined).len()),
                        },
                    )
                },
                Err(error) => *final(self) == *old(self) && outcome.is_remark(
                    plugin_failure_text(error@),
                ),
            },
    {
        match result {
            Ok(transformed) => {
                self.history.push_snapshot(&self.script);
                match range {
                    Some((start, end)) => {
                        let (mut combined, _, after) = split_range(
                            &self.script.actions,
                            start,
                            end,
                        );
                        push_all(&mut combined, &transformed);
                        push_all(&mut combined, &after);
                        self.script.actions = combined;
                        self.script.sanitize();
                        EditOutcome::change(say_plugin_range(name, start, end))
                    },
                    None => {
                        self.script.actions = transformed;
                        self.script.sanitize();
                        EditOutcome::change(say_plugin(name, self.script.actions.len()))
                    },
                }
            },
            Err(error) => EditOutcome::remark(say_plugin_failure(error.as_str())),
        }
    }
}

/// A script put together again from the parts that a range makes of it.
#[verifier::opaque]
pub open spec fn reassembled(s: Seq<Action>, start: i64, end: i64) -> Seq<Action> {
    before_time(s, start) + within_times(s, start, end) + after_time(s, start, end)
}

/// A plugin that hands back what it got leaves a script sorted by time as it is.
pub proof fn lemma_identity_plugin(s: Seq<Action>, start: i64, end: i64)
    requires
        sorted_by_time(s),
        start <= end,
    ensures
        reassembled(s, start, end) == s,
    decreases s.len(),
{
    if s.len() == 0 {
        reveal(reassembled);
        lemma_parts_empty(s, start, end);
        assert(reassembled(s, start, end) =~= s);
    } else {
        let d = s.drop_last();
        lemma_identity_plugin(d, start, end);
        lemma_reassembled_last(s, start, end);
        assert(d.push(s.last()) =~= s);
    }
}

proof fn lemma_reassembled_last(s: Seq<Action>, start: i64, end: i64)
    requires
        s.len() > 0,
        sorted_by_time(s),
        start <= end,
    ensures
        reassembled(s, start, end) == reassembled(s.drop_last(), start, end).push(s.last()),
{
    reveal(reassembled);
    let d = s.drop_last();
    let a = s.last();
    lemma_parts_last(s, start, end);
    lemma_parts_empty(d, start, end);
    let x = before_time(d, start);
    let y = within_times(d, start, end);
    let z = after_time(d, start, end);
    lemma_parted_push(x, y, z, a);
    if a.at <= end {
        assert forall|i: int| 0 <= i < d.len() implies (#[trigger] d[i]).at <= end by {
            assert(s[i].at <= s[s.len() - 1].at);
        }
        assert(z.len() == 0);
    }
    if a.at < start {
        assert forall|i: int| 0 <= i < d.len() implies (#[trigger] d[i]).at < start by {
            assert(s[i].at <= s[s.len() - 1].at);
        }
        assert(y.len() == 0);
    }
}

proof fn lemma_parted_push(x: Seq<Action>, y: Seq<Action>, z: Seq<Action>, a: Action)
    ensures
        x + y + z.push(a) == (x + y + z).push(a),
        z.len() == 0 ==> x + y.push(a) + z == (x + y + z).push(a),
        y.len() == 0 && z.len() == 0 ==> x.push(a) + y + z == (x + y + z).push(a),
{
    assert(x + y + z.push(a) =~= (x + y + z).push(a));
    if z.len() == 0 {
        assert(x + y.push(a) + z =~= (x + y + z).push(a));
        if y.len() == 0 {
            assert(x.push(a) + y + z =~= (x + y + z).push(a));
        }
    }
}

proof fn lemma_parts_last(s: Seq<Action>, start: i64, end: i64)
    requires
        s.len() > 0,
        start <= end,
    ensures
        ({
            let d = s.drop_last();
            let a = s.last();
            &&& before_time(s, start) == (if a.at < start {
                before_time(d, start).push(a)
            } else {
                before_time(d, start)
            })
            &&& within_times(s, start, end) == (if start <= a.at && a.at <= end {
                within_times(d, start, end).push(a)
            } else {
                within_times(d, start, end)
            })
            &&& after_time(s, start, end) == (if a.at > end {
                after_time(d, start, end).push(a)
            } else {
                after_time(d, start, end)
            })
        }),
{
    reveal(Seq::filter);
}

proof fn lemma_parts_empty(s: Seq<Action>, start: i64, end: i64)
    requires
        start <= end,
    ensures
        s.len() == 0 ==> before_time(s, start).len() == 0,
        (forall|i: int| 0 <= i < s.len() ==> (#[trigger] s[i]).at < start) ==> within_times(
            s,
            start,
            end,
        ).len() == 0,
        (forall|i: int| 0 <= i < s.len() ==> (#[trigger] s[i]).at <= end) ==> after_time(
            s,
            start,
            end,
        ).len() == 0,
    decreases s.len(),
{
    if s.len() == 0 {
        reveal(Seq::filter);
    } else {
        let d = s.drop_last();
        lemma_parts_last(s, start, end);
        lemma_parts_empty(d, start, end);
        assert(s[s.len() - 1] == s.last());
        assert(forall|i: int| 0 <= i < d.len() ==> #[trigger] d[i] == s[i]);
    }
}

/// The last keyframe's time, or what is assumed of a script without any.
pub open spec fn end_or(s: Seq<Action>, other: i64) -> i64 {
    if s.len() > 0 {
        s.last().at
    } else {
        other
    }
}

/// The keyframes with a range replaced by others, in proper form.
pub open spec fn refilled(s: Seq<Action>, start: i64, end: i64, points: Seq<Action>) -> Seq<
    Action,
> {
    sanitized(outside(s, start, end) + points)
}

fn refill(script: &mut Funscript, start: i64, end: i64, points: &Vec<Action>)
    ensures
        final(script)@ == (FunscriptView {
            actions: refilled(old(script).actions@, start, end, points@),
            ..old(script)@
        }),
{
    let mut kept: Vec<Action> = remove_range(&script.actions, start, end);
    push_all(&mut kept, points);
    script.actions = kept;
    script.sanitize();
}

/// The report on keyframes made from sound.
pub open spec fn synthesis_text(count: nat, axis: AxisChannel, start: int, end: int) -> Seq<char> {
    "⚡ Synthesized "@ + decimal(count) + " actions for "@ + axis_label(axis) + " ("@
        + decimal_int(start) + "ms - "@ + decimal_int(end) + "ms)"@
}

fn say_synthesis(count: usize, axis: AxisChannel, start: i64, end: i64) -> (status: String)
    ensures
        status@ == synthesis_text(count as nat, axis, start as int, end as int),
{
    let mut status: String = "⚡ Synthesized ".to_owned();
    append_decimal(&mut status, count as u64);
    status.append(" actions for ");
    status.append(axis.display_name());
    status.append(" (");
    append_signed(&mut status, start);
    status.append("ms - ");
    append_signed(&mut status, end);
    status.append("ms)");
    status
}

/// What a bundle holds for an axis, or an empty script.
pub open spec fn script_on(m: Map<AxisChannel, FunscriptView>, axis: AxisChannel) -> FunscriptView {
    if m.dom().contains(axis) {
        m[axis]
    } else {
        empty_script()
    }
}

impl Editor {
    /// The range that keyframes are made for: the loop where it is wanted and set,
    /// else everything, as far as the sound or the script goes.
    pub fn synthesis_range(&self, use_loop: bool, audio_ms: i64) -> (range: (i64, i64))
        ensures
            range == (match (self.timeline.loop_in_ms, self.timeline.loop_out_ms) {
                (Some(from), Some(to)) if use_loop => (from, to),
                _ => {
                    let end = end_or(self.script.actions@, 10000);
                    (0i64, if audio_ms > end {
                        audio_ms
                    } else {
                        end
                    })
                },
            }),
    {
        if use_loop {
            if let Some(from) = self.timeline.loop_in_ms {
                if let Some(to) = self.timeline.loop_out_ms {
                    return (from, to);
                }
            }
        }
        let n: usize = self.script.actions.len();
        let end: i64 = if n > 0 {
            self.script.actions[n - 1].at
        } else {
            10000
        };
        (
            0,
            if audio_ms > end {
                audio_ms
            } else {
                end
            },
        )
    }

    /// Puts keyframes made from sound into a range of an axis.
    pub fn apply_synthesis(&mut self, axis: AxisChannel, range: (i64, i64), points: &Vec<Action>)
        -> (outcome: EditOutcome)
        requires
            old(self).wf(),
        ensures
            final(self).wf(),
            final(self).timeline == old(self).timeline,
            final(self).active_axis == old(self).active_axis,
            points.len() == 0 ==> {
                &&& *final(self) == *old(self)
                &&& outcome.is_remark(
                    "No actions synthesized; try lowering the sensitivity threshold slider."@,
                )
            },
            points.len() > 0 ==> outcome.is_change(
                synthesis_text(points@.len(), axis, range.0 as int, range.1 as int),
            ),
            points.len() > 0 && axis == old(self).active_axis ==> {
                &&& final(self).remembers(&*old(self))
                &&& final(self).has_actions(
                    &*old(self),
                    refilled(old(self).script.actions@, range.0, range.1, points@),
                )
                &&& final(self).multi_axis@ == old(self).multi_axis@.insert(
                    axis,
                    final(self).script@,
                )
            },
            points.len() > 0 && axis != old(self).active_axis ==> {
                let target = script_on(old(self).multi_axis@, axis);
                &&& final(self).history == old(self).history
                &&& final(self).script == old(self).script
                &&& final(self).multi_axis@ == old(self).multi_axis@.insert(
                    axis,
                    FunscriptView {
                        actions: refilled(target.actions, range.0, range.1, points@),
                        ..target
                    },
                )
            },
    {
        if points.len() == 0 {
            return EditOutcome::remark(
                "No actions synthesized; try lowering the sensitivity threshold slider.".to_owned(),
            );
        }
        if axis == self.active_axis {
            self.history.push_snapshot(&self.script);
            refill(&mut self.script, range.0, range.1, points);
            self.multi_axis.insert(axis, self.script.clone());
        } else {
            let target: &mut Funscript = self.multi_axis.get_or_create(axis);
            refill(target, range.0, range.1, points);
        }
        EditOutcome::change(say_synthesis(points.len(), axis, range.0, range.1))
    }

    /// Takes over a bundle made from sound, with its stroke script as the active
    /// one.
    pub fn apply_companion_bundle(&mut self, bundle: MultiAxisScript) -> (outcome: EditOutcome)
        requires
            old(self).wf(),
        ensures
            final(self).wf(),
            final(self).timeline == old(self).timeline,
            final(self).active_axis == old(self).active_axis,
            final(self).remembers(&*old(self)),
            final(self).multi_axis@ == bundle@,
            final(self).script@ == (if bundle@.dom().contains(AxisChannel::Stroke) {
                bundle@[AxisChannel::Stroke]
            } else {
                old(self).script@
            }),
            outcome.is_change(
                counted_text(
                    "⚡ Auto-generated full multi-band companion bundle ("@,
                    axes_below(bundle@, false, 7).len(),
                    " channels) from audio spectrum!"@,
                ),
            ),
    {
        self.history.push_snapshot(&self.script);
        if let Some(stroke) = bundle.get(AxisChannel::Stroke) {
            self.script = stroke.clone();
        }
        let count: usize = bundle.channels().len();
        self.multi_axis = bundle;
        EditOutcome::change(
            say_count(
                "⚡ Auto-generated full multi-band companion bundle (",
                count,
                " channels) from audio spectrum!",
            ),
        )
    }

    /// Takes over a generated bundle, with its stroke script as the active one.
    /// Returns how many axes it has.
    pub fn take_generated(&mut self, bundle: MultiAxisScript) -> (count: usize)
        requires
            old(self).wf(),
        ensures
            final(self).wf(),
            final(self).timeline == old(self).timeline,
            final(self).history == old(self).history,
            final(self).active_axis == AxisChannel::Stroke,
            final(self).multi_axis@ == bundle@,
            final(self).script@ == (if bundle@.dom().contains(AxisChannel::Stroke) {
                bundle@[AxisChannel::Stroke]
            } else {
                old(self).script@
            }),
            count == axes_below(bundle@, false, 7).len(),
    {
        if let Some(stroke) = bundle.get(AxisChannel::Stroke) {
            self.script = stroke.clone();
        }
        let count: usize = bundle.channels().len();
        self.multi_axis = bundle;
        self.active_axis = AxisChannel::Stroke;
        count
    }

    /// Opens a bundle that was loaded from `path`: its stroke script becomes the
    /// active one, and there is nothing to undo.
    pub fn open_bundle(&mut self, bundle: MultiAxisScript, path: &str) -> (outcome: EditOutcome)
        requires
            old(self).wf(),
        ensures
            final(self).wf(),
            final(self).timeline == old(self).timeline,
            final(self).active_axis == AxisChannel::Stroke,
            final(self).history@ == HistoryView::fresh(old(self).history@.max_depth),
            final(self).script@ == script_on(bundle@, AxisChannel::Stroke),
            final(self).multi_axis@ == bundle@.insert(
                AxisChannel::Stroke,
                script_on(bundle@, AxisChannel::Stroke),
            ),
            outcome.is_change(
                counted_text(
                    "Loaded multi-axis bundle ("@,
                    axes_below(final(self).multi_axis@, true, 7).len(),
                    " active channels) from "@,
                ) + path@,
            ),
    {
        self.multi_axis = bundle;
        self.active_axis = AxisChannel::Stroke;
        let stroke: &mut Funscript = self.multi_axis.get_or_create(AxisChannel::Stroke);
        self.script = stroke.clone();
        self.history.clear();
        let count: usize = self.multi_axis.active_channels().len();
        let mut status: String = say_count(
            "Loaded multi-axis bundle (",
            count,
            " active channels) from ",
        );
        status.append(path);
        EditOutcome::change(status)
    }

    /// Puts the active script under its axis, as before saving.
    pub fn commit_active(&mut self)
        requires
            old(self).wf(),
        ensures
            final(self).wf(),
            final(self).multi_axis@ == old(self).multi_axis@.insert(
                old(self).active_axis,
                old(self).script@,
            ),
            final(self).script == old(self).script,
            final(self).active_axis == old(self).active_axis,
            final(self).history == old(self).history,
            final(self).timeline == old(self).timeline,
    {
        self.multi_axis.insert(self.active_axis, self.script.clone());
    }
}

/// What is opened right after a bundle was committed is what was being edited.
pub proof fn lemma_committed_is_kept(
    m: Map<AxisChannel, FunscriptView>,
    axis: AxisChannel,
    script: FunscriptView,
)
    ensures
        script_on(m.insert(axis, script), axis) == script,
        forall|other: AxisChannel|
            other != axis ==> #[trigger] script_on(m.insert(axis, script), other) == script_on(
                m,
                other,
            ),
{
}

/// A range parts a script: a keyframe is before it, in it or after it by its time, and every
/// keyframe is in one of the three.
pub proof fn lemma_parted(s: Seq<Action>, start: i64, end: i64, a: Action)
    requires
        start <= end,
    ensures
        before_time(s, start).contains(a) <==> s.contains(a) && a.at < start,
        within_times(s, start, end).contains(a) <==> s.contains(a) && start <= a.at <= end,
        after_time(s, start, end).contains(a) <==> s.contains(a) && a.at > end,
        before_time(s, start).len() + within_times(s, start, end).len() + after_time(
            s,
            start,
            end,
        ).len() == s.len(),
    decreases s.len(),
{
    reveal(Seq::filter);
    if s.len() > 0 {
        let d = s.drop_last();
        let last = s.last();
        lemma_parted(d, start, end, a);
        lemma_pushed_contains(d, last, a);
        assert(s =~= d.push(last));
        lemma_pushed_contains(before_time(d, start), last, a);
        lemma_pushed_contains(within_times(d, start, end), last, a);
        lemma_pushed_contains(after_time(d, start, end), last, a);
    }
}

proof fn lemma_pushed_contains(s: Seq<Action>, b: Action, a: Action)
    ensures
        s.push(b).contains(a) <==> s.contains(a) || a == b,
{
    let t = s.push(b);
    if s.contains(a) {
        let k = choose|k: int| 0 <= k < s.len() && s[k] == a;
        assert(t[k] == a);
    }
    assert(t[s.len() as int] == b);
    if t.contains(a) {
        let k = choose|k: int| 0 <= k < t.len() && t[k] == a;
        if k < s.len() {
            assert(s[k] == a);
        }
    }
}

/// What a bundle does not hold is an empty script; what it holds is that.
pub proof fn lemma_script_on(m: Map<AxisChannel, FunscriptView>, axis: AxisChannel)
    ensures
        m.dom().contains(axis) ==> script_on(m, axis) == m[axis],
        !m.dom().contains(axis) ==> script_on(m, axis).actions.len() == 0 && script_on(
            m,
            axis,
        ).metadata is None,
{
}

/// A repair leaves a script of fewer than three keyframes as it is. Of a longer one it takes
/// only keyframes that hardly move: by at most 2 within less than 20 ms.
pub proof fn lemma_calmed(s: Seq<Action>, i: int)
    requires
        0 <= i < sanitized(s).len(),
        sanitized(s).len() >= 2,
    ensures
        s.len() < 3 ==> calmed(s) == s,
        s.len() >= 3 ==> calmed(s).contains(sanitized(s)[i]) || hardly_moves_after(
            calmed(s),
            sanitized(s)[i],
            20,
            2,
        ),
{
    lemma_sanitized_form(s);
    lemma_only_jitters_removed(sanitized(s), 20, 2);
}

/// A script ends with its last keyframe; only one without any ends where assumed.
pub proof fn lemma_end_or(s: Seq<Action>, other: i64)
    ensures
        s.len() == 0 ==> end_or(s, other) == other,
        s.len() > 0 ==> end_or(s, other) == s[s.len() - 1].at,
{
}

} // verus!
