//! Edits of the active script: on the selection, by pointer, across axes, with
//! undo, and what is reported of them.
use crate::axis::{axis_label, empty_script, AxisChannel, MultiAxisScript};
use crate::funscript::{
    clamp_pos, clamped, inverted, is_latest_at, lemma_position_map, lemma_sanitized_form,
    lower_bound, position_map, sanitized, sorted_by_time, strictly_timed, Action, Funscript, FunscriptView,
};
use crate::history::{lemma_undo_restores_snapshot, HistoryView, UndoHistory};
use crate::text::{append_decimal, append_signed, decimal, decimal_int};
use crate::timeline::{
    all_indices, first_index, first_of, increasing, indices_below, insert_index,
    lemma_indices_below, place_of, TimelineState,
};
use vstd::prelude::*;
use vstd::string::*;

verus! {

/// What an edit leaves to be done: a message to show, and whether the script is
/// to be audited anew.
#[derive(Debug)]
pub struct EditOutcome {
    pub status: Option<String>,
    pub audit: bool,
}

impl EditOutcome {
    /// Nothing was done.
    pub open spec fn is_nothing(&self) -> bool {
        self.status is None && !self.audit
    }

    /// The script changed, and this is said about it.
    pub open spec fn is_change(&self, text: Seq<char>) -> bool {
        &&& self.status matches Some(s) && s@ == text
        &&& self.audit
    }

    /// The script did not change, and this is said about it.
    pub open spec fn is_remark(&self, text: Seq<char>) -> bool {
        &&& self.status matches Some(s) && s@ == text
        &&& !self.audit
    }

    pub(crate) fn nothing() -> (res: Self)
        ensures
            res.is_nothing(),
    {
        EditOutcome { status: None, audit: false }
    }

    pub(crate) fn remark(status: String) -> (res: Self)
        ensures
            res.is_remark(status@),
    {
        EditOutcome { status: Some(status), audit: false }
    }

    pub(crate) fn change(status: String) -> (res: Self)
        ensures
            res.is_change(status@),
    {
        EditOutcome { status: Some(status), audit: true }
    }
}

/// `head`, a number and `tail`.
pub open spec fn counted_text(head: Seq<char>, n: nat, tail: Seq<char>) -> Seq<char> {
    head + decimal(n) + tail
}

pub(crate) fn say_count(head: &str, n: usize, tail: &str) -> (res: String)
    ensures
        res@ == counted_text(head@, n as nat, tail@),
{
    let mut res: String = head.to_owned();
    append_decimal(&mut res, n as u64);
    res.append(tail);
    res
}

/// The first `n` entries of `s` without those at the given places.
pub open spec fn without_indices(s: Seq<Action>, places: Seq<usize>, n: nat) -> Seq<Action>
    decreases n,
{
    if n == 0 {
        Seq::empty()
    } else {
        let head = without_indices(s, places, (n - 1) as nat);
        if places.contains((n - 1) as usize) {
            head
        } else {
            head.push(s[n - 1])
        }
    }
}

/// The keyframes without those at the given places.
pub fn remove_indices(actions: &Vec<Action>, places: &Vec<usize>) -> (res: Vec<Action>)
    requires
        increasing(places@),
    ensures
        res@ == without_indices(actions@, places@, actions@.len()),
{
    let mut res: Vec<Action> = Vec::new();
    let mut i: usize = 0;
    while i < actions.len()
        invariant
            i <= actions.len(),
            increasing(places@),
            res@ == without_indices(actions@, places@, i as nat),
        decreases actions.len() - i,
    {
        let pos: usize = place_of(places, i);
        if !(pos < places.len() && places[pos] == i) {
            res.push(actions[i]);
        }
        i += 1;
    }
    res
}

/// A single place removed is the keyframe there removed.
pub proof fn lemma_without_one(s: Seq<Action>, idx: usize)
    requires
        idx < s.len(),
        s.len() <= usize::MAX,
    ensures
        without_indices(s, seq![idx], s.len()) == s.remove(idx as int),
{
    lemma_without_one_below(s, idx, s.len());
    assert(s.take(idx as int) + s.subrange(idx + 1, s.len() as int) =~= s.remove(idx as int));
}

proof fn lemma_without_one_below(s: Seq<Action>, idx: usize, n: nat)
    requires
        n <= s.len() <= usize::MAX,
        idx < s.len(),
    ensures
        n <= idx ==> without_indices(s, seq![idx], n) == s.take(n as int),
        n > idx ==> without_indices(s, seq![idx], n) == s.take(idx as int) + s.subrange(
            idx + 1,
            n as int,
        ),
    decreases n,
{
    if n == 0 {
        assert(s.take(0) =~= Seq::empty());
    } else {
        lemma_without_one_below(s, idx, (n - 1) as nat);
        let one = seq![idx];
        assert(one[0] == idx);
        if n - 1 < idx {
            assert(!one.contains((n - 1) as usize));
            assert(s.take(n as int) =~= s.take(n - 1).push(s[n - 1]));
        } else if n - 1 == idx {
            assert(one.contains((n - 1) as usize));
            assert(s.subrange(idx + 1, n as int) =~= Seq::empty());
            assert(s.take(idx as int) + Seq::<Action>::empty() =~= s.take(idx as int));
        } else {
            assert(!one.contains((n - 1) as usize));
            assert((s.take(idx as int) + s.subrange(idx + 1, n - 1)).push(s[n - 1]) =~= s.take(
                idx as int,
            ) + s.subrange(idx + 1, n as int));
        }
    }
}

/// The places of `s` below `n` whose timestamp is one of `times`.
pub open spec fn places_at(s: Seq<Action>, times: Seq<i64>, n: nat) -> Seq<usize>
    decreases n,
{
    if n == 0 {
        Seq::empty()
    } else {
        let head = places_at(s, times, (n - 1) as nat);
        if times.contains(s[n - 1].at) {
            head.push((n - 1) as usize)
        } else {
            head
        }
    }
}

fn holds_time(times: &Vec<i64>, t: i64) -> (res: bool)
    ensures
        res == times@.contains(t),
{
    let mut i: usize = 0;
    while i < times.len()
        invariant
            i <= times.len(),
            forall|k: int| 0 <= k < i ==> times@[k] != t,
        decreases times.len() - i,
    {
        if times[i] == t {
            assert(times@[i as int] == t);
            return true;
        }
        i += 1;
    }
    false
}

/// The places whose timestamp is one of `times`, in order.
pub fn find_places(actions: &Vec<Action>, times: &Vec<i64>) -> (res: Vec<usize>)
    ensures
        res@ == places_at(actions@, times@, actions@.len()),
        increasing(res@),
{
    let mut res: Vec<usize> = Vec::new();
    let mut i: usize = 0;
    while i < actions.len()
        invariant
            i <= actions.len(),
            res@ == places_at(actions@, times@, i as nat),
            increasing(res@),
            forall|k: int| 0 <= k < res.len() ==> #[trigger] res@[k] < i,
        decreases actions.len() - i,
    {
        if holds_time(times, actions[i].at) {
            res.push(i);
        }
        i += 1;
    }
    res
}

/// The timestamps of `s` at the first `n` of the given places, where it has them.
pub open spec fn times_at(s: Seq<Action>, places: Seq<usize>, n: nat) -> Seq<i64>
    decreases n,
{
    if n == 0 {
        Seq::empty()
    } else {
        let head = times_at(s, places, (n - 1) as nat);
        if places[n - 1] < s.len() {
            head.push(s[places[n - 1] as int].at)
        } else {
            head
        }
    }
}

/// The timestamps at the given places, where there are keyframes.
pub fn collect_times(actions: &Vec<Action>, places: &Vec<usize>) -> (res: Vec<i64>)
    ensures
        res@ == times_at(actions@, places@, places@.len()),
{
    let mut res: Vec<i64> = Vec::new();
    let mut i: usize = 0;
    while i < places.len()
        invariant
            i <= places.len(),
            res@ == times_at(actions@, places@, i as nat),
        decreases places.len() - i,
    {
        if places[i] < actions.len() {
            res.push(actions[places[i]].at);
        }
        i += 1;
    }
    res
}

/// `s` with `f` applied to the keyframes at the given places.
pub open spec fn changed_at(s: Seq<Action>, places: Seq<usize>, f: spec_fn(int, Action) -> Action) -> Seq<
    Action,
> {
    Seq::new(
        s.len(),
        |i: int|
            if places.contains(i as usize) {
                f(i, s[i])
            } else {
                s[i]
            },
    )
}

/// `pos` moved up or down by `step`, not past the end of the range.
pub open spec fn nudged(a: Action, up: bool, step: i32) -> Action {
    Action {
        at: a.at,
        pos: if up {
            if a.pos + step > 100 {
                100
            } else {
                (a.pos + step) as i32
            }
        } else if a.pos - step < 0 {
            0
        } else {
            (a.pos - step) as i32
        },
    }
}

/// `at` moved by `delta`, but neither before the start nor past the last moment.
pub open spec fn shifted(at: i64, delta: int) -> i64 {
    if at + delta < 0 {
        0
    } else if at + delta > i64::MAX {
        i64::MAX
    } else {
        (at + delta) as i64
    }
}

fn shift_time(at: i64, delta: i64) -> (res: i64)
    ensures
        res == shifted(at, delta as int),
{
    let t: i128 = at as i128 + delta as i128;
    if t < 0 {
        0
    } else if t > i64::MAX as i128 {
        i64::MAX
    } else {
        t as i64
    }
}

/// The places that an edit of the selection acts on: the selected ones, or all
/// where nothing is selected.
pub open spec fn edited_places(selected: Seq<usize>, n: nat) -> Seq<usize> {
    if selected.len() > 0 {
        selected
    } else {
        indices_below(n)
    }
}

/// The state of the script editor.
#[derive(Debug)]
pub struct Editor {
    pub script: Funscript,
    pub multi_axis: MultiAxisScript,
    pub active_axis: AxisChannel,
    pub history: UndoHistory,
    pub timeline: TimelineState,
}

impl Editor {
    /// History and timeline are well-formed.
    pub open spec fn wf(&self) -> bool {
        &&& self.history@.valid()
        &&& self.timeline.wf()
    }

    /// Only the script, the history and the timeline may differ.
    pub open spec fn same_scene(&self, other: &Editor) -> bool {
        &&& self.multi_axis == other.multi_axis
        &&& self.active_axis == other.active_axis
    }

    /// The script has the same version and metadata, and these keyframes.
    pub open spec fn has_actions(&self, before: &Editor, actions: Seq<Action>) -> bool {
        self.script@ == (FunscriptView { actions, ..before.script@ })
    }

    /// The state before an edit is remembered.
    pub open spec fn remembers(&self, before: &Editor) -> bool {
        self.history@ == before.history@.pushed(before.script@)
    }

    /// Nothing is selected any more.
    pub open spec fn deselected(&self, before: &Editor) -> bool {
        &&& self.timeline.same_but_selection(&before.timeline)
        &&& !self.timeline.marquee_active
        &&& self.timeline.selected_index is None
        &&& self.timeline.selected_indices@.len() == 0
    }

    /// An editor of an empty scene.
    pub fn new() -> (res: Self)
        ensures
            res.wf(),
            res.script@ == empty_script(),
            res.multi_axis@ == Map::<AxisChannel, FunscriptView>::empty().insert(
                AxisChannel::Stroke,
                empty_script(),
            ),
            res.active_axis == AxisChannel::Stroke,
            res.history@ == HistoryView::fresh(50),
            res.timeline.is_fresh(),
    {
        let script = Funscript::new(Vec::new());
        assert(script.actions@ =~= Seq::empty());
        Editor {
            script,
            multi_axis: MultiAxisScript::new(),
            active_axis: AxisChannel::Stroke,
            history: UndoHistory::default(),
            timeline: TimelineState::default(),
        }
    }

    /// Makes another axis the active one: the active script is kept under its
    /// axis, and that of the new axis, or an empty one, becomes active.
    pub fn switch_axis(&mut self, new_axis: AxisChannel) -> (outcome: EditOutcome)
        requires
            old(self).wf(),
        ensures
            final(self).wf(),
            final(self).history == old(self).history,
            new_axis == old(self).active_axis ==> outcome.is_nothing() && *final(self) == *old(
                self,
            ),
            new_axis != old(self).active_axis ==> {
                let kept = old(self).multi_axis@.insert(old(self).active_axis, old(self).script@);
                let loaded = if kept.dom().contains(new_axis) {
                    kept[new_axis]
                } else {
                    empty_script()
                };
                &&& final(self).active_axis == new_axis
                &&& final(self).multi_axis@ == kept.insert(new_axis, loaded)
                &&& final(self).script@ == loaded
                &&& final(self).timeline == (TimelineState {
                    selected_index: None,
                    ..old(self).timeline
                })
                &&& outcome.is_change("Switched active channel to "@ + axis_label(new_axis))
            },
    {
        if self.active_axis == new_axis {
            return EditOutcome::nothing();
        }
        self.multi_axis.insert(self.active_axis, self.script.clone());
        self.active_axis = new_axis;
        let target: &mut Funscript = self.multi_axis.get_or_create(new_axis);
        self.script = target.clone();
        self.timeline.selected_index = None;
        let mut status: String = "Switched active channel to ".to_owned();
        status.append(new_axis.display_name());
        EditOutcome::change(status)
    }

    pub fn perform_undo(&mut self) -> (outcome: EditOutcome)
        requires
            old(self).wf(),
        ensures
            final(self).wf(),
            final(self).same_scene(&*old(self)),
            (final(self).history@, final(self).script@) == old(self).history@.undone(
                old(self).script@,
            ),
            old(self).history@.undo.len() == 0 ==> outcome.is_nothing() && final(self).timeline
                == old(self).timeline,
            old(self).history@.undo.len() > 0 ==> outcome.is_change("Undid last action (Ctrl+Z)"@)
                && final(self).timeline == (TimelineState {
                selected_index: None,
                ..old(self).timeline
            }),
    {
        if self.history.undo(&mut self.script) {
            self.timeline.selected_index = None;
            EditOutcome::change("Undid last action (Ctrl+Z)".to_owned())
        } else {
            EditOutcome::nothing()
        }
    }

    pub fn perform_redo(&mut self) -> (outcome: EditOutcome)
        requires
            old(self).wf(),
        ensures
            final(self).wf(),
            final(self).same_scene(&*old(self)),
            (final(self).history@, final(self).script@) == old(self).history@.redone(
                old(self).script@,
            ),
            old(self).history@.redo.len() == 0 ==> outcome.is_nothing() && final(self).timeline
                == old(self).timeline,
            old(self).history@.redo.len() > 0 ==> outcome.is_change("Redid action (Ctrl+Y)"@)
                && final(self).timeline == (TimelineState {
                selected_index: None,
                ..old(self).timeline
            }),
    {
        if self.history.redo(&mut self.script) {
            self.timeline.selected_index = None;
            EditOutcome::change("Redid action (Ctrl+Y)".to_owned())
        } else {
            EditOutcome::nothing()
        }
    }

    /// Deletes the selected keyframes, or the lead one where no others are.
    pub fn delete_selected_keyframes(&mut self) -> (outcome: EditOutcome)
        requires
            old(self).wf(),
        ensures
            final(self).wf(),
            final(self).same_scene(&*old(self)),
            ({
                let s = old(self).script.actions@;
                let places = old(self).doomed_places();
                if s.len() == 0 || places.len() == 0 {
                    outcome.is_nothing() && *final(self) == *old(self)
                } else {
                    &&& final(self).has_actions(&*old(self), without_indices(s, places, s.len()))
                    &&& final(self).remembers(&*old(self))
                    &&& final(self).deselected(&*old(self))
                    &&& outcome.is_change(
                        counted_text("Deleted "@, places.len(), " keyframe(s)"@),
                    )
                }
            }),
    {
        if self.script.actions.len() == 0 {
            return EditOutcome::nothing();
        }
        let mut places: Vec<usize> = Vec::new();
        if self.timeline.selected_indices.len() > 0 {
            places = self.timeline.selected_indices.clone();
            assert(places@ =~= self.timeline.selected_indices@);
        } else if let Some(idx) = self.timeline.selected_index {
            if idx < self.script.actions.len() {
                places.push(idx);
                assert(places@ =~= seq![idx]);
            }
        }
        if places.len() == 0 {
            assert(places@ =~= self.doomed_places());
            return EditOutcome::nothing();
        }
        self.history.push_snapshot(&self.script);
        self.script.actions = remove_indices(&self.script.actions, &places);
        self.timeline.clear_selection();
        EditOutcome::change(say_count("Deleted ", places.len(), " keyframe(s)"))
    }

    /// The places that a deletion removes.
    pub open spec fn doomed_places(&self) -> Seq<usize> {
        if self.timeline.selected_indices@.len() > 0 {
            self.timeline.selected_indices@
        } else {
            match self.timeline.selected_index {
                Some(idx) if idx < self.script.actions@.len() => seq![idx],
                _ => Seq::empty(),
            }
        }
    }

    /// Inverts the selected keyframes, or all where none is selected.
    pub fn invert_selection(&mut self) -> (outcome: EditOutcome)
        requires
            old(self).wf(),
        ensures
            final(self).wf(),
            final(self).same_scene(&*old(self)),
            final(self).timeline == old(self).timeline,
            ({
                let s = old(self).script.actions@;
                let selected = old(self).timeline.selected_indices@;
                if s.len() == 0 {
                    outcome.is_nothing() && *final(self) == *old(self)
                } else {
                    &&& final(self).remembers(&*old(self))
                    &&& final(self).has_actions(
                        &*old(self),
                        changed_at(
                            s,
                            edited_places(selected, s.len()),
                            |i: int, a: Action| inverted(s)[i],
                        ),
                    )
                    &&& outcome.is_change(
                        if selected.len() > 0 {
                            counted_text("Inverted "@, selected.len(), " selected keyframe(s)"@)
                        } else {
                            counted_text("Inverted all "@, s.len(), " keyframe(s)"@)
                        },
                    )
                }
            }),
    {
        if self.script.actions.len() == 0 {
            return EditOutcome::nothing();
        }
        self.history.push_snapshot(&self.script);
        let ghost s = self.script.actions@;
        let ghost f = |i: int, a: Action| inverted(s)[i];
        let selected: usize = self.timeline.selected_indices.len();
        if selected > 0 {
            let ghost places = self.timeline.selected_indices@;
            let n: usize = self.script.actions.len();
            let mut i: usize = 0;
            while i < n
                invariant
                    i <= n,
                    n == s.len(),
                    n == self.script.actions.len(),
                    places == self.timeline.selected_indices@,
                    increasing(places),
                    f == (|i: int, a: Action| inverted(s)[i]),
                    self.history@ == old(self).history@.pushed(old(self).script@),
                    self.history@.valid(),
                    self.timeline == old(self).timeline,
                    self.multi_axis == old(self).multi_axis,
                    self.active_axis == old(self).active_axis,
                    self.script.version == old(self).script.version,
                    self.script.metadata == old(self).script.metadata,
                    forall|k: int|
                        0 <= k < n ==> #[trigger] self.script.actions@[k] == (if k < i {
                            changed_at(s, places, f)[k]
                        } else {
                            s[k]
                        }),
                decreases n - i,
            {
                let pos: usize = place_of(&self.timeline.selected_indices, i);
                if pos < self.timeline.selected_indices.len()
                    && self.timeline.selected_indices[pos] == i {
                    let a: Action = self.script.actions[i];
                    self.script.actions.set(
                        i,
                        Action { at: a.at, pos: 100 - clamp_pos(a.pos) },
                    );
                }
                i += 1;
            }
            assert(self.script.actions@ =~= changed_at(s, places, f));
            EditOutcome::change(say_count("Inverted ", selected, " selected keyframe(s)"))
        } else {
            self.script.invert_positions();
            proof {
                lemma_indices_below(s.len());
            }
            assert(inverted(s) =~= changed_at(s, indices_below(s.len()), f));
            EditOutcome::change(
                say_count("Inverted all ", self.script.actions.len(), " keyframe(s)"),
            )
        }
    }
}

/// Puts `replacements[i]` in place of keyframe `i` at each of the given places.
pub fn replace_at(actions: &mut Vec<Action>, places: &Vec<usize>, replacements: &Vec<Action>)
    requires
        increasing(places@),
        replacements.len() == old(actions).len(),
    ensures
        final(actions)@ == changed_at(
            old(actions)@,
            places@,
            |i: int, a: Action| replacements@[i],
        ),
{
    let ghost s = actions@;
    let ghost f = |i: int, a: Action| replacements@[i];
    let n: usize = actions.len();
    let mut i: usize = 0;
    while i < n
        invariant
            i <= n,
            n == s.len(),
            n == actions.len(),
            n == replacements.len(),
            increasing(places@),
            f == (|i: int, a: Action| replacements@[i]),
            forall|k: int|
                0 <= k < n ==> #[trigger] actions@[k] == (if k < i {
                    changed_at(s, places@, f)[k]
                } else {
                    s[k]
                }),
        decreases n - i,
    {
        let pos: usize = place_of(places, i);
        if pos < places.len() && places[pos] == i {
            actions.set(i, replacements[i]);
        }
        i += 1;
    }
    assert(actions@ =~= changed_at(s, places@, f));
}

/// Keyframe `a` moved in time by `delta`.
pub open spec fn moved_by(a: Action, delta: int) -> Action {
    Action { at: shifted(a.at, delta), pos: a.pos }
}

/// Keyframe `a` put on a beat, if there is one near.
pub open spec fn on_beat(a: Action, beat: Option<i64>) -> Action {
    match beat {
        Some(t) => Action { at: t, pos: a.pos },
        None => a,
    }
}

/// How many of the keyframes at the given places below `n` a beat moves.
pub open spec fn snapped_count(
    s: Seq<Action>,
    places: Seq<usize>,
    beats: Seq<Option<i64>>,
    n: nat,
) -> nat
    decreases n,
{
    if n == 0 {
        0
    } else {
        snapped_count(s, places, beats, (n - 1) as nat) + if places.contains((n - 1) as usize)
            && on_beat(s[n - 1], beats[n - 1]) != s[n - 1] {
            1nat
        } else {
            0nat
        }
    }
}

/// What is said of a shift in time.
pub open spec fn shift_text(n: nat, delta: int) -> Seq<char> {
    counted_text("Shifted "@, n, " keyframe(s) by "@) + (if delta > 0 {
        "+"@
    } else {
        ""@
    }) + decimal_int(delta) + "ms"@
}

impl Editor {
    fn places(&self) -> (res: Vec<usize>)
        requires
            self.wf(),
        ensures
            res@ == edited_places(self.timeline.selected_indices@, self.script.actions@.len()),
            increasing(res@),
    {
        if self.timeline.selected_indices.len() > 0 {
            let res: Vec<usize> = self.timeline.selected_indices.clone();
            assert(res@ =~= self.timeline.selected_indices@);
            res
        } else {
            all_indices(self.script.actions.len())
        }
    }

    /// The timeline after an edit in time that selected keyframes took part in:
    /// what is selected then are the keyframes at the given times.
    pub open spec fn follows_selection(&self, before: &Editor, times: Seq<i64>) -> bool {
        if before.timeline.selected_indices@.len() == 0 {
            self.timeline == before.timeline
        } else {
            let s = self.script.actions@;
            &&& self.timeline.same_but_selection(&before.timeline)
            &&& self.timeline.marquee_active == before.timeline.marquee_active
            &&& self.timeline.selected_indices@ == places_at(s, times, s.len())
            &&& self.timeline.selected_index == first_of(self.timeline.selected_indices@)
        }
    }

    fn settle(&mut self, times: &Vec<i64>)
        requires
            old(self).wf(),
        ensures
            final(self).wf(),
            final(self).same_scene(&*old(self)),
            final(self).history == old(self).history,
            final(self).has_actions(&*old(self), sanitized(old(self).script.actions@)),
            final(self).follows_selection(&*old(self), times@),
    {
        self.script.sanitize();
        if self.timeline.selected_indices.len() > 0 {
            self.timeline.selected_indices = find_places(&self.script.actions, times);
            self.timeline.selected_index = first_index(&self.timeline.selected_indices);
        }
    }

    /// Gives the edited keyframes, the selected ones or all, their scaled
    /// positions. `scaled[i]` is that of keyframe `i`; `factor` and `center` are
    /// how the factor and the center of the scaling are shown.
    pub fn scale_selection(&mut self, scaled: &Vec<i32>, factor: &str, center: &str) -> (outcome:
        EditOutcome)
        requires
            old(self).wf(),
            scaled.len() == old(self).script.actions.len(),
        ensures
            final(self).wf(),
            final(self).same_scene(&*old(self)),
            final(self).timeline == old(self).timeline,
            ({
                let s = old(self).script.actions@;
                let places = edited_places(old(self).timeline.selected_indices@, s.len());
                if s.len() == 0 {
                    outcome.is_nothing() && *final(self) == *old(self)
                } else {
                    &&& final(self).remembers(&*old(self))
                    &&& final(self).has_actions(
                        &*old(self),
                        changed_at(
                            s,
                            places,
                            |i: int, a: Action| Action { at: a.at, pos: clamped(scaled@[i]) },
                        ),
                    )
                    &&& outcome.is_change(
                        counted_text("Scaled "@, places.len(), " keyframe(s) by "@) + factor@
                            + "x around centroid "@ + center@,
                    )
                }
            }),
    {
        let n: usize = self.script.actions.len();
        if n == 0 {
            return EditOutcome::nothing();
        }
        self.history.push_snapshot(&self.script);
        let places: Vec<usize> = self.places();
        let ghost s = self.script.actions@;
        let mut replacements: Vec<Action> = Vec::new();
        let mut i: usize = 0;
        while i < n
            invariant
                i <= n,
                n == self.script.actions.len(),
                n == scaled.len(),
                s == self.script.actions@,
                replacements.len() == i,
                forall|k: int|
                    0 <= k < i ==> #[trigger] replacements@[k] == (Action {
                        at: s[k].at,
                        pos: clamped(scaled@[k]),
                    }),
            decreases n - i,
        {
            replacements.push(
                Action { at: self.script.actions[i].at, pos: clamp_pos(scaled[i]) },
            );
            i += 1;
        }
        replace_at(&mut self.script.actions, &places, &replacements);
        assert(self.script.actions@ =~= changed_at(
            s,
            places@,
            |i: int, a: Action| Action { at: a.at, pos: clamped(scaled@[i]) },
        ));
        let mut status: String = say_count("Scaled ", places.len(), " keyframe(s) by ");
        status.append(factor);
        status.append("x around centroid ");
        status.append(center);
        EditOutcome::change(status)
    }

    /// Moves the edited keyframes, the selected ones or all, in time.
    pub fn shift_selection_time(&mut self, delta_ms: i64) -> (outcome: EditOutcome)
        requires
            old(self).wf(),
        ensures
            final(self).wf(),
            final(self).same_scene(&*old(self)),
            ({
                let s = old(self).script.actions@;
                let places = edited_places(old(self).timeline.selected_indices@, s.len());
                let moved = changed_at(
                    s,
                    places,
                    |i: int, a: Action| moved_by(a, delta_ms as int),
                );
                if s.len() == 0 || delta_ms == 0 {
                    outcome.is_nothing() && *final(self) == *old(self)
                } else {
                    &&& final(self).remembers(&*old(self))
                    &&& final(self).has_actions(&*old(self), sanitized(moved))
                    &&& final(self).follows_selection(
                        &*old(self),
                        times_at(moved, places, places.len()),
                    )
                    &&& outcome.is_change(shift_text(places.len(), delta_ms as int))
                }
            }),
    {
        let n: usize = self.script.actions.len();
        if n == 0 || delta_ms == 0 {
            return EditOutcome::nothing();
        }
        self.history.push_snapshot(&self.script);
        let places: Vec<usize> = self.places();
        let ghost s = self.script.actions@;
        let mut replacements: Vec<Action> = Vec::new();
        let mut i: usize = 0;
        while i < n
            invariant
                i <= n,
                n == self.script.actions.len(),
                s == self.script.actions@,
                replacements.len() == i,
                forall|k: int|
                    0 <= k < i ==> #[trigger] replacements@[k] == moved_by(s[k], delta_ms as int),
            decreases n - i,
        {
            let a: Action = self.script.actions[i];
            replacements.push(Action { at: shift_time(a.at, delta_ms), pos: a.pos });
            i += 1;
        }
        replace_at(&mut self.script.actions, &places, &replacements);
        assert(self.script.actions@ =~= changed_at(
            s,
            places@,
            |i: int, a: Action| moved_by(a, delta_ms as int),
        ));
        let times: Vec<i64> = collect_times(&self.script.actions, &places);
        self.settle(&times);
        let mut status: String = say_count("Shifted ", places.len(), " keyframe(s) by ");
        let sign: &str = if delta_ms > 0 {
            "+"
        } else {
            ""
        };
        status.append(sign);
        append_signed(&mut status, delta_ms);
        status.append("ms");
        EditOutcome::change(status)
    }

    /// Puts the edited keyframes, the selected ones or all, on the beats near
    /// them. `beats[i]` is the beat near keyframe `i`, if there is one; there is
    /// nothing to snap to without an audio track.
    pub fn snap_selected_to_beats(&mut self, has_audio: bool, beats: &Vec<Option<i64>>) -> (outcome:
        EditOutcome)
        requires
            old(self).wf(),
            has_audio ==> beats.len() == old(self).script.actions.len(),
        ensures
            final(self).wf(),
            final(self).same_scene(&*old(self)),
            ({
                let s = old(self).script.actions@;
                let places = edited_places(old(self).timeline.selected_indices@, s.len());
                let moved = changed_at(s, places, |i: int, a: Action| on_beat(a, beats@[i]));
                if s.len() == 0 {
                    outcome.is_nothing() && *final(self) == *old(self)
                } else if !has_audio {
                    &&& outcome.is_remark("Beat snap: No audio track loaded or extracted"@)
                    &&& *final(self) == *old(self)
                } else {
                    &&& final(self).remembers(&*old(self))
                    &&& final(self).has_actions(&*old(self), sanitized(moved))
                    &&& final(self).follows_selection(
                        &*old(self),
                        times_at(moved, places, places.len()),
                    )
                    &&& outcome.is_change(
                        counted_text(
                            "Snapped "@,
                            snapped_count(s, places, beats@, s.len()),
                            " keyframe(s) to audio rhythm transients"@,
                        ),
                    )
                }
            }),
    {
        let n: usize = self.script.actions.len();
        if n == 0 {
            return EditOutcome::nothing();
        }
        if !has_audio {
            return EditOutcome {
                status: Some("Beat snap: No audio track loaded or extracted".to_owned()),
                audit: false,
            };
        }
        self.history.push_snapshot(&self.script);
        let places: Vec<usize> = self.places();
        let ghost s = self.script.actions@;
        let mut replacements: Vec<Action> = Vec::new();
        let mut snapped: usize = 0;
        let mut i: usize = 0;
        while i < n
            invariant
                i <= n,
                n == self.script.actions.len(),
                n == beats.len(),
                s == self.script.actions@,
                increasing(places@),
                replacements.len() == i,
                snapped <= i,
                snapped == snapped_count(s, places@, beats@, i as nat),
                forall|k: int|
                    0 <= k < i ==> #[trigger] replacements@[k] == on_beat(s[k], beats@[k]),
            decreases n - i,
        {
            let a: Action = self.script.actions[i];
            let b: Action = match beats[i] {
                Some(t) => Action { at: t, pos: a.pos },
                None => a,
            };
            let pos: usize = place_of(&places, i);
            if pos < places.len() && places[pos] == i && b.at != a.at {
                snapped += 1;
            }
            replacements.push(b);
            i += 1;
        }
        replace_at(&mut self.script.actions, &places, &replacements);
        assert(self.script.actions@ =~= changed_at(
            s,
            places@,
            |i: int, a: Action| on_beat(a, beats@[i]),
        ));
        let times: Vec<i64> = collect_times(&self.script.actions, &places);
        self.settle(&times);
        EditOutcome::change(
            say_count("Snapped ", snapped, " keyframe(s) to audio rhythm transients"),
        )
    }

    /// Moves the selected keyframes, or the lead one, up or down by `step`.
    pub fn nudge_selection(&mut self, up: bool, step: i32) -> (outcome: EditOutcome)
        requires
            old(self).wf(),
            1 <= step <= 100,
        ensures
            final(self).wf(),
            final(self).same_scene(&*old(self)),
            final(self).timeline == old(self).timeline,
            ({
                let s = old(self).script.actions@;
                let places = old(self).nudged_places();
                if places.len() == 0 {
                    outcome.is_nothing() && *final(self) == *old(self)
                } else {
                    &&& final(self).remembers(&*old(self))
                    &&& final(self).has_actions(
                        &*old(self),
                        changed_at(s, places, |i: int, a: Action| nudged(a, up, step)),
                    )
                    &&& outcome.is_change(nudge_text(places.len(), up, step as nat))
                }
            }),
    {
        let mut places: Vec<usize> = Vec::new();
        if self.timeline.selected_indices.len() > 0 {
            places = self.timeline.selected_indices.clone();
            assert(places@ =~= self.timeline.selected_indices@);
        } else if let Some(idx) = self.timeline.selected_index {
            places.push(idx);
            assert(places@ =~= seq![idx]);
        }
        if places.len() == 0 {
            return EditOutcome::nothing();
        }
        self.history.push_snapshot(&self.script);
        let n: usize = self.script.actions.len();
        let ghost s = self.script.actions@;
        let mut replacements: Vec<Action> = Vec::new();
        let mut i: usize = 0;
        while i < n
            invariant
                i <= n,
                n == self.script.actions.len(),
                1 <= step <= 100,
                s == self.script.actions@,
                replacements.len() == i,
                forall|k: int|
                    0 <= k < i ==> #[trigger] replacements@[k] == nudged(s[k], up, step),
            decreases n - i,
        {
            let a: Action = self.script.actions[i];
            let pos: i32 = if up {
                if a.pos > 100 - step {
                    100
                } else {
                    a.pos + step
                }
            } else if a.pos < step {
                0
            } else {
                a.pos - step
            };
            replacements.push(Action { at: a.at, pos });
            i += 1;
        }
        replace_at(&mut self.script.actions, &places, &replacements);
        assert(self.script.actions@ =~= changed_at(
            s,
            places@,
            |i: int, a: Action| nudged(a, up, step),
        ));
        let mut status: String = say_count("Nudged ", places.len(), " keyframe(s) ");
        if up {
            status.append("Up");
        } else {
            status.append("Down");
        }
        status.append(" (±");
        append_decimal(&mut status, step as u64);
        status.append(")");
        EditOutcome::change(status)
    }

    /// The places that a nudge acts on.
    pub open spec fn nudged_places(&self) -> Seq<usize> {
        if self.timeline.selected_indices@.len() > 0 {
            self.timeline.selected_indices@
        } else {
            match self.timeline.selected_index {
                Some(idx) => seq![idx],
                None => Seq::empty(),
            }
        }
    }
}

/// What is said of a nudge.
pub open spec fn nudge_text(n: nat, up: bool, step: nat) -> Seq<char> {
    counted_text("Nudged "@, n, " keyframe(s) "@) + (if up {
        "Up"@
    } else {
        "Down"@
    }) + " (±"@ + decimal(step) + ")"@
}

/// The keyframes `start..end` that a pointer at `click` may have hit, where they
/// are sorted by time: those within the radius, and one more.
pub fn hit_range(actions: &Vec<Action>, click: i64, radius: i64) -> (range: (usize, usize))
    ensures
        range.0 <= actions.len(),
        range.1 <= actions.len(),
        sorted_by_time(actions@) ==> {
            let n = actions@.len();
            let upto = before_count(actions@, click + radius + 1, n);
            &&& range.0 == before_count(actions@, click - radius, n)
            &&& range.1 == (if upto < n {
                upto + 1
            } else {
                n
            })
        },
{
    let n: usize = actions.len();
    let low: i128 = click as i128 - radius as i128;
    let high: i128 = click as i128 + radius as i128;
    let start: usize = count_before(actions, low);
    let upto: usize = count_before(actions, high + 1);
    proof {
        if sorted_by_time(actions@) {
            lemma_before_count(actions@, click - radius, start as int, n as nat);
            lemma_before_count(actions@, click + radius + 1, upto as int, n as nat);
        }
    }
    let end: usize = if upto < n {
        upto + 1
    } else {
        n
    };
    (start, end)
}

/// How many of the first `n` keyframes lie before `t`.
pub open spec fn before_count(s: Seq<Action>, t: int, n: nat) -> nat
    decreases n,
{
    if n == 0 {
        0
    } else {
        before_count(s, t, (n - 1) as nat) + if s[n - 1].at < t {
            1nat
        } else {
            0nat
        }
    }
}

proof fn lemma_before_count(s: Seq<Action>, t: int, idx: int, n: nat)
    requires
        0 <= idx <= s.len(),
        n <= s.len(),
        forall|i: int| 0 <= i < idx ==> (#[trigger] s[i]).at < t,
        forall|i: int| idx <= i < s.len() ==> (#[trigger] s[i]).at >= t,
    ensures
        before_count(s, t, n) == (if n < idx {
            n as int
        } else {
            idx
        }),
    decreases n,
{
    if n > 0 {
        lemma_before_count(s, t, idx, (n - 1) as nat);
    }
}

/// The keyframes `start..end` to draw for a view: those in it, with one more on
/// either side, where they are sorted by time.
pub fn visible_range(actions: &Vec<Action>, view_start: i64, view_end: i64) -> (range: (
    usize,
    usize,
))
    ensures
        range.0 <= actions.len(),
        range.1 <= actions.len(),
        sorted_by_time(actions@) ==> {
            let n = actions@.len();
            let before = before_count(actions@, view_start as int, n);
            let upto = before_count(actions@, view_end + 1, n);
            &&& range.0 == (if before > 0 {
                before - 1
            } else {
                0
            })
            &&& range.1 == (if upto < n {
                upto + 1
            } else {
                n
            })
        },
{
    let n: usize = actions.len();
    let before: usize = count_before(actions, view_start as i128);
    let upto: usize = count_before(actions, view_end as i128 + 1);
    proof {
        if sorted_by_time(actions@) {
            lemma_before_count(actions@, view_start as int, before as int, n as nat);
            lemma_before_count(actions@, view_end + 1, upto as int, n as nat);
        }
    }
    let start: usize = if before > 0 {
        before - 1
    } else {
        0
    };
    let end: usize = if upto < n {
        upto + 1
    } else {
        n
    };
    (start, end)
}

fn count_before(actions: &Vec<Action>, t: i128) -> (idx: usize)
    ensures
        idx <= actions.len(),
        sorted_by_time(actions@) ==> {
            &&& forall|i: int| 0 <= i < idx ==> (#[trigger] actions@[i]).at < t
            &&& forall|i: int| idx <= i < actions.len() ==> (#[trigger] actions@[i]).at >= t
        },
{
    let mut lo: usize = 0;
    let mut hi: usize = actions.len();
    while lo < hi
        invariant
            lo <= hi <= actions.len(),
            sorted_by_time(actions@) ==> {
                &&& forall|i: int| 0 <= i < lo ==> (#[trigger] actions@[i]).at < t
                &&& forall|i: int| hi <= i < actions.len() ==> (#[trigger] actions@[i]).at >= t
            },
        decreases hi - lo,
    {
        let mid: usize = lo + (hi - lo) / 2;
        if (actions[mid].at as i128) < t {
            lo = mid + 1;
        } else {
            hi = mid;
        }
    }
    lo
}

/// Keyframe `a` dragged along by `dt` and `dp`.
pub open spec fn dragged(a: Action, dt: int, dp: int) -> Action {
    Action {
        at: shifted(a.at, dt),
        pos: if a.pos + dp < 0 {
            0
        } else if a.pos + dp > 100 {
            100
        } else {
            (a.pos + dp) as i32
        },
    }
}

fn drag_action(a: Action, dt: i128, dp: i64) -> (res: Action)
    requires
        -0x1_0000_0000_0000_0000 <= dt <= 0x1_0000_0000_0000_0000,
        -0x2_0000_0000 <= dp <= 0x2_0000_0000,
    ensures
        res == dragged(a, dt as int, dp as int),
{
    let t: i128 = a.at as i128 + dt;
    let at: i64 = if t < 0 {
        0
    } else if t > i64::MAX as i128 {
        i64::MAX
    } else {
        t as i64
    };
    let p: i64 = a.pos as i64 + dp;
    let pos: i32 = if p < 0 {
        0
    } else if p > 100 {
        100
    } else {
        p as i32
    };
    Action { at, pos }
}

/// Where the playhead goes on from the end of a loop or of the script.
#[derive(Debug, Clone, Copy, PartialEq, Eq, Structural)]
pub enum PlaybackCue {
    /// On as it was
    GoOn,
    /// Back to the start of the loop
    Loop(i64),
    /// Back to the start of the script
    Restart,
}

/// How long a script is: the time of its last keyframe.
pub open spec fn script_end(s: Seq<Action>) -> i64 {
    if s.len() > 0 {
        s.last().at
    } else {
        0
    }
}

/// What becomes of a playhead that has come to `t`.
pub open spec fn cue_at(timeline: TimelineState, end: i64, t: i64) -> PlaybackCue {
    match (timeline.loop_in_ms, timeline.loop_out_ms) {
        (Some(in_ms), Some(out_ms)) if timeline.loop_enabled && out_ms > in_ms && t >= out_ms => {
            PlaybackCue::Loop(in_ms)
        },
        _ => if end > 0 && t > end {
            PlaybackCue::Restart
        } else {
            PlaybackCue::GoOn
        },
    }
}

/// Where a playhead that has come to `t` stands then.
pub open spec fn cued(cue: PlaybackCue, t: i64) -> i64 {
    match cue {
        PlaybackCue::GoOn => t,
        PlaybackCue::Loop(in_ms) => in_ms,
        PlaybackCue::Restart => 0,
    }
}

/// The timeline once keyframe `idx` has been made part of what is dragged: it is
/// selected, alone or with the others, unless it is already.
pub open spec fn grabbed(before: TimelineState, after: TimelineState, idx: usize, shift: bool) -> bool {
    if before.selected_indices@.contains(idx) || before.selected_index == Some(idx) {
        after.selected_indices@ == before.selected_indices@ && after.selected_index
            == before.selected_index
    } else if shift {
        &&& forall|x: usize| #[trigger]
            after.selected_indices@.contains(x) <==> before.selected_indices@.contains(x) || x
                == idx
        &&& after.selected_index == Some(idx)
    } else {
        after.selected_indices@ == seq![idx] && after.selected_index == Some(idx)
    }
}

impl Editor {
    /// A click on the canvas at a time, on a keyframe or beside them.
    pub fn click(&mut self, hit: Option<usize>, shift: bool, click_time: i64)
        requires
            old(self).wf(),
            hit matches Some(idx) ==> idx < old(self).script.actions.len(),
        ensures
            final(self).wf(),
            final(self).same_scene(&*old(self)),
            final(self).script == old(self).script,
            final(self).history == old(self).history,
            final(self).timeline == (TimelineState {
                cursor_time_ms: final(self).timeline.cursor_time_ms,
                selected_index: final(self).timeline.selected_index,
                selected_indices: final(self).timeline.selected_indices,
                marquee_active: old(self).timeline.marquee_active && (hit is Some || shift),
                ..old(self).timeline
            }),
            match hit {
                Some(idx) => {
                    &&& final(self).timeline.cursor_time_ms == old(self).script.actions@[idx as int].at
                    &&& if shift {
                        &&& forall|x: usize| #[trigger]
                            final(self).timeline.selected_indices@.contains(x) <==> if x == idx {
                                !old(self).timeline.selected_indices@.contains(x)
                            } else {
                                old(self).timeline.selected_indices@.contains(x)
                            }
                        &&& final(self).timeline.selected_index == (if !old(
                            self,
                        ).timeline.selected_indices@.contains(idx) {
                            Some(idx)
                        } else if old(self).timeline.selected_index == Some(idx) {
                            first_of(final(self).timeline.selected_indices@)
                        } else {
                            old(self).timeline.selected_index
                        })
                    } else {
                        &&& final(self).timeline.selected_indices@ == seq![idx]
                        &&& final(self).timeline.selected_index == Some(idx)
                    }
                },
                None => if shift {
                    final(self).timeline == old(self).timeline
                } else {
                    &&& final(self).timeline.selected_indices@.len() == 0
                    &&& final(self).timeline.selected_index is None
                    &&& final(self).timeline.cursor_time_ms == (if click_time < 0 {
                        0
                    } else {
                        click_time
                    })
                },
            },
    {
        match hit {
            Some(idx) => {
                if shift {
                    self.timeline.toggle_selection(idx);
                } else {
                    self.timeline.select_single(idx);
                }
                self.timeline.cursor_time_ms = self.script.actions[idx].at;
            },
            None => {
                if !shift {
                    self.timeline.clear_selection();
                    self.timeline.cursor_time_ms = if click_time < 0 {
                        0
                    } else {
                        click_time
                    };
                }
            },
        }
    }

    /// Inserts a keyframe, in place of one at its time, selects it and moves the
    /// playhead there.
    pub fn insert_keyframe(&mut self, at: i64, pos: i32)
        requires
            old(self).wf(),
        ensures
            final(self).wf(),
            final(self).same_scene(&*old(self)),
            final(self).remembers(&*old(self)),
            final(self).has_actions(
                &*old(self),
                sanitized(old(self).script.actions@.push(Action { at, pos })),
            ),
            final(self).timeline == (TimelineState {
                cursor_time_ms: at,
                selected_index: final(self).timeline.selected_index,
                selected_indices: final(self).timeline.selected_indices,
                ..old(self).timeline
            }),
            final(self).timeline.selected_index matches Some(idx) && {
                &&& idx < final(self).script.actions@.len()
                &&& final(self).script.actions@[idx as int] == (Action { at, pos: clamped(pos) })
                &&& final(self).timeline.selected_indices@ == seq![idx]
            },
    {
        self.history.push_snapshot(&self.script);
        let ghost before = self.script.actions@;
        self.script.actions.push(Action { at, pos });
        self.script.sanitize();
        let ghost after = self.script.actions@;
        let idx: usize = lower_bound(&self.script.actions, at);
        proof {
            let pushed = before.push(Action { at, pos });
            lemma_sanitized_form(pushed);
            lemma_position_map(pushed);
            lemma_position_map(after);
            assert(pushed[before.len() as int].at == at);
            assert(is_latest_at(pushed, before.len() as int, at));
            assert(position_map(after).dom().contains(at));
            let k = choose|k: int| is_latest_at(after, k, at);
            assert(k >= idx);
            if k > idx {
                assert(after[idx as int].at < after[k].at);
            }
            assert(k == idx);
            assert(0 <= after[k].pos <= 100);
        }
        self.timeline.select_single(idx);
        self.timeline.cursor_time_ms = at;
    }

    /// Begins to drag a keyframe, together with the selection, or, beside the
    /// keyframes and with shift, a selection box.
    pub fn drag_started(&mut self, hit: Option<usize>, shift: bool)
        requires
            old(self).wf(),
        ensures
            final(self).wf(),
            final(self).same_scene(&*old(self)),
            final(self).script == old(self).script,
            match hit {
                Some(idx) => {
                    &&& final(self).remembers(&*old(self))
                    &&& grabbed(old(self).timeline, final(self).timeline, idx, shift)
                    &&& final(self).timeline == (TimelineState {
                        selected_index: final(self).timeline.selected_index,
                        selected_indices: final(self).timeline.selected_indices,
                        is_dragging_point: true,
                        marquee_active: false,
                        ..old(self).timeline
                    })
                },
                None => {
                    &&& final(self).history == old(self).history
                    &&& final(self).timeline == (TimelineState {
                        marquee_active: shift || old(self).timeline.marquee_active,
                        ..old(self).timeline
                    })
                },
            },
    {
        match hit {
            Some(idx) => {
                if !self.timeline.is_selected(idx) {
                    if shift {
                        self.timeline.toggle_selection(idx);
                    } else {
                        self.timeline.select_single(idx);
                    }
                }
                self.timeline.is_dragging_point = true;
                self.timeline.marquee_active = false;
                self.history.push_snapshot(&self.script);
            },
            None => {
                if shift {
                    self.timeline.marquee_active = true;
                }
            },
        }
    }

    /// Drags the selection so that its lead keyframe comes to a time and a
    /// position; `snap` is the transient that the time was snapped to.
    pub fn drag_points(&mut self, new_t: i64, new_p: i32, snap: Option<i64>)
        requires
            old(self).wf(),
            old(self).timeline.is_dragging_point,
        ensures
            final(self).wf(),
            final(self).same_scene(&*old(self)),
            final(self).history == old(self).history,
            ({
                let s = old(self).script.actions@;
                match old(self).timeline.selected_index {
                    Some(lead) if lead < s.len() => {
                        let dt = new_t - s[lead as int].at;
                        let dp = new_p - s[lead as int].pos;
                        &&& final(self).has_actions(
                            &*old(self),
                            if dt != 0 || dp != 0 {
                                changed_at(
                                    s,
                                    old(self).timeline.selected_indices@,
                                    |i: int, a: Action| dragged(a, dt, dp),
                                )
                            } else {
                                s
                            },
                        )
                        &&& final(self).timeline == (TimelineState {
                            snapped_transient_ms: snap,
                            cursor_time_ms: if dt != 0 || dp != 0 {
                                new_t
                            } else {
                                old(self).timeline.cursor_time_ms
                            },
                            ..old(self).timeline
                        })
                    },
                    _ => *final(self) == *old(self),
                }
            }),
    {
        let n: usize = self.script.actions.len();
        if let Some(lead) = self.timeline.selected_index {
            if lead < n {
                self.timeline.snapped_transient_ms = snap;
                let dt: i128 = new_t as i128 - self.script.actions[lead].at as i128;
                let dp: i64 = new_p as i64 - self.script.actions[lead].pos as i64;
                if dt != 0 || dp != 0 {
                    let ghost s = self.script.actions@;
                    let mut replacements: Vec<Action> = Vec::new();
                    let mut i: usize = 0;
                    while i < n
                        invariant
                            i <= n,
                            n == self.script.actions.len(),
                            s == self.script.actions@,
                            -0x1_0000_0000_0000_0000 <= dt <= 0x1_0000_0000_0000_0000,
                            -0x2_0000_0000 <= dp <= 0x2_0000_0000,
                            replacements.len() == i,
                            forall|k: int|
                                0 <= k < i ==> #[trigger] replacements@[k] == dragged(
                                    s[k],
                                    dt as int,
                                    dp as int,
                                ),
                        decreases n - i,
                    {
                        replacements.push(drag_action(self.script.actions[i], dt, dp));
                        i += 1;
                    }
                    replace_at(
                        &mut self.script.actions,
                        &self.timeline.selected_indices,
                        &replacements,
                    );
                    assert(self.script.actions@ =~= changed_at(
                        s,
                        self.timeline.selected_indices@,
                        |i: int, a: Action| dragged(a, dt as int, dp as int),
                    ));
                    self.timeline.cursor_time_ms = new_t;
                }
            }
        }
    }

    /// Adds the keyframes inside a selection box to the selection; the first of
    /// them leads where no other does.
    pub fn drag_marquee(&mut self, inside: &Vec<usize>)
        requires
            old(self).wf(),
        ensures
            final(self).wf(),
            final(self).same_scene(&*old(self)),
            final(self).script == old(self).script,
            final(self).history == old(self).history,
            final(self).timeline.same_but_selection(&old(self).timeline),
            final(self).timeline.marquee_active == old(self).timeline.marquee_active,
            forall|x: usize| #[trigger]
                final(self).timeline.selected_indices@.contains(x) <==> old(
                    self,
                ).timeline.selected_indices@.contains(x) || inside@.contains(x),
            final(self).timeline.selected_index == (if old(self).timeline.selected_index is Some {
                old(self).timeline.selected_index
            } else {
                first_of(inside@)
            }),
    {
        let mut i: usize = 0;
        while i < inside.len()
            invariant
                i <= inside.len(),
                self.wf(),
                self.same_scene(&*old(self)),
                self.script == old(self).script,
                self.history == old(self).history,
                self.timeline.same_but_selection(&old(self).timeline),
                self.timeline.marquee_active == old(self).timeline.marquee_active,
                forall|x: usize| #[trigger]
                    self.timeline.selected_indices@.contains(x) <==> old(
                        self,
                    ).timeline.selected_indices@.contains(x) || inside@.take(
                        i as int,
                    ).contains(x),
                self.timeline.selected_index == (if old(self).timeline.selected_index is Some {
                    old(self).timeline.selected_index
                } else {
                    first_of(inside@.take(i as int))
                }),
            decreases inside.len() - i,
        {
            let idx: usize = inside[i];
            insert_index(&mut self.timeline.selected_indices, idx);
            if self.timeline.selected_index.is_none() {
                self.timeline.selected_index = Some(idx);
            }
            proof {
                let before = inside@.take(i as int);
                let after = inside@.take(i + 1);
                assert(after =~= before.push(idx));
                assert forall|x: usize| #[trigger] after.contains(x) <==> before.contains(x) || x
                    == idx by {
                    if before.contains(x) {
                        let k = choose|k: int| 0 <= k < before.len() && before[k] == x;
                        assert(after[k] == x);
                    }
                    assert(after[i as int] == idx);
                }
            }
            i += 1;
        }
        assert(inside@.take(i as int) =~= inside@);
    }

    /// Drags across the canvas beside the keyframes: where no box is drawn and nothing
    /// is selected the playhead follows, not before the start.
    pub fn drag_canvas(&mut self, time_ms: i64)
        requires
            old(self).wf(),
        ensures
            final(self).wf(),
            ({
                let t = old(self).timeline;
                let scrubs = !t.is_dragging_point && !t.marquee_active && t.selected_indices.len()
                    == 0;
                *final(self) == (Editor {
                    timeline: TimelineState {
                        cursor_time_ms: if !scrubs {
                            t.cursor_time_ms
                        } else if time_ms < 0 {
                            0
                        } else {
                            time_ms
                        },
                        ..t
                    },
                    ..*old(self)
                })
            }),
    {
        let t: &TimelineState = &self.timeline;
        if !t.is_dragging_point && !t.marquee_active && t.selected_indices.len() == 0 {
            self.seek_to(time_ms);
        }
    }

    /// Ends a drag. What was dragged is put in order and stays selected; after a
    /// selection box the first selected keyframe leads.
    pub fn drag_stopped(&mut self)
        requires
            old(self).wf(),
        ensures
            final(self).wf(),
            final(self).same_scene(&*old(self)),
            final(self).history == old(self).history,
            final(self).timeline == (TimelineState {
                selected_index: final(self).timeline.selected_index,
                selected_indices: final(self).timeline.selected_indices,
                is_dragging_point: false,
                marquee_active: false,
                snapped_transient_ms: if old(self).timeline.is_dragging_point {
                    None
                } else {
                    old(self).timeline.snapped_transient_ms
                },
                ..old(self).timeline
            }),
            ({
                let s = old(self).script.actions@;
                let places = old(self).timeline.selected_indices@;
                if old(self).timeline.is_dragging_point {
                    let t = sanitized(s);
                    &&& final(self).has_actions(&*old(self), t)
                    &&& final(self).timeline.selected_indices@ == places_at(
                        t,
                        times_at(s, places, places.len()),
                        t.len(),
                    )
                    &&& final(self).timeline.selected_index == first_of(
                        final(self).timeline.selected_indices@,
                    )
                } else {
                    &&& final(self).script == old(self).script
                    &&& final(self).timeline.selected_indices == old(
                        self,
                    ).timeline.selected_indices
                    &&& final(self).timeline.selected_index == (if old(
                        self,
                    ).timeline.marquee_active {
                        first_of(places)
                    } else {
                        old(self).timeline.selected_index
                    })
                }
            }),
    {
        if self.timeline.is_dragging_point {
            self.timeline.is_dragging_point = false;
            self.timeline.snapped_transient_ms = None;
            let times: Vec<i64> = collect_times(
                &self.script.actions,
                &self.timeline.selected_indices,
            );
            self.script.sanitize();
            self.timeline.selected_indices = find_places(&self.script.actions, &times);
            self.timeline.selected_index = first_index(&self.timeline.selected_indices);
        }
        if self.timeline.marquee_active {
            self.timeline.marquee_active = false;
            self.timeline.selected_index = first_index(&self.timeline.selected_indices);
        }
    }

    /// Deletes the keyframe under the pointer, and with it the rest of the
    /// selection where it is one of several.
    pub fn delete_hit(&mut self, idx: usize)
        requires
            old(self).wf(),
            idx < old(self).script.actions.len(),
        ensures
            final(self).wf(),
            final(self).same_scene(&*old(self)),
            final(self).remembers(&*old(self)),
            final(self).deselected(&*old(self)),
            ({
                let s = old(self).script.actions@;
                let selected = old(self).timeline.selected_indices@;
                final(self).has_actions(
                    &*old(self),
                    if selected.contains(idx) && selected.len() > 1 {
                        without_indices(s, selected, s.len())
                    } else {
                        s.remove(idx as int)
                    },
                )
            }),
    {
        self.history.push_snapshot(&self.script);
        let pos: usize = place_of(&self.timeline.selected_indices, idx);
        let count: usize = self.timeline.selected_indices.len();
        if pos < count && self.timeline.selected_indices[pos] == idx && count > 1 {
            self.script.actions = remove_indices(
                &self.script.actions,
                &self.timeline.selected_indices,
            );
        } else {
            let _ = self.script.actions.remove(idx);
        }
        self.timeline.clear_selection();
    }

    /// Moves the playhead to a time, not before the start.
    pub fn seek_to(&mut self, time_ms: i64)
        requires
            old(self).wf(),
        ensures
            final(self).wf(),
            *final(self) == (Editor {
                timeline: TimelineState {
                    cursor_time_ms: if time_ms < 0 {
                        0
                    } else {
                        time_ms
                    },
                    ..old(self).timeline
                },
                ..*old(self)
            }),
    {
        self.timeline.cursor_time_ms = if time_ms < 0 {
            0
        } else {
            time_ms
        };
    }

    /// How long the script is: the time of its last keyframe.
    pub fn duration_ms(&self) -> (end: i64)
        ensures
            end == script_end(self.script.actions@),
    {
        let n: usize = self.script.actions.len();
        if n > 0 {
            self.script.actions[n - 1].at
        } else {
            0
        }
    }

    /// Moves the playhead back by a step, not before the start.
    pub fn step_back(&mut self, step: i64)
        requires
            old(self).wf(),
            step >= 0,
            old(self).timeline.cursor_time_ms - step >= i64::MIN,
        ensures
            final(self).wf(),
            *final(self) == (Editor {
                timeline: TimelineState {
                    cursor_time_ms: if old(self).timeline.cursor_time_ms < step {
                        0
                    } else {
                        (old(self).timeline.cursor_time_ms - step) as i64
                    },
                    ..old(self).timeline
                },
                ..*old(self)
            }),
    {
        let t: i64 = self.timeline.cursor_time_ms - step;
        self.seek_to(t);
    }

    /// Moves the playhead on by a step, not past the end of the script, but at
    /// least to the end of a first step.
    pub fn step_forward(&mut self, step: i64)
        requires
            old(self).wf(),
            step >= 0,
            old(self).timeline.cursor_time_ms + step <= i64::MAX,
        ensures
            final(self).wf(),
            ({
                let end = script_end(old(self).script.actions@);
                let most = if end > step {
                    end
                } else {
                    step
                };
                let t = old(self).timeline.cursor_time_ms + step;
                let at = if t < most {
                    t
                } else {
                    most as int
                };
                *final(self) == (Editor {
                    timeline: TimelineState {
                        cursor_time_ms: if at < 0 {
                            0
                        } else {
                            at as i64
                        },
                        ..old(self).timeline
                    },
                    ..*old(self)
                })
            }),
    {
        let end: i64 = self.duration_ms();
        let most: i64 = if end > step {
            end
        } else {
            step
        };
        let t: i64 = self.timeline.cursor_time_ms + step;
        self.seek_to(
            if t < most {
                t
            } else {
                most
            },
        );
    }

    /// Lets the playhead advance while playing: at the end of an active loop it
    /// goes back to the loop's start, past the end of the script to the start.
    pub fn advance(&mut self, advance_ms: i64) -> (cue: PlaybackCue)
        requires
            old(self).wf(),
            i64::MIN <= old(self).timeline.cursor_time_ms + advance_ms <= i64::MAX,
        ensures
            final(self).wf(),
            ({
                let t = (old(self).timeline.cursor_time_ms + advance_ms) as i64;
                &&& cue == cue_at(old(self).timeline, script_end(old(self).script.actions@), t)
                &&& *final(self) == (Editor {
                    timeline: TimelineState {
                        cursor_time_ms: cued(cue, t),
                        ..old(self).timeline
                    },
                    ..*old(self)
                })
            }),
    {
        let t: i64 = self.timeline.cursor_time_ms + advance_ms;
        let mut cue: PlaybackCue = PlaybackCue::GoOn;
        if self.timeline.loop_enabled {
            if let Some(in_ms) = self.timeline.loop_in_ms {
                if let Some(out_ms) = self.timeline.loop_out_ms {
                    if out_ms > in_ms && t >= out_ms {
                        cue = PlaybackCue::Loop(in_ms);
                    }
                }
            }
        }
        if cue == PlaybackCue::GoOn {
            let end: i64 = self.duration_ms();
            if end > 0 && t > end {
                cue = PlaybackCue::Restart;
            }
        }
        self.timeline.cursor_time_ms = match cue {
            PlaybackCue::GoOn => t,
            PlaybackCue::Loop(in_ms) => in_ms,
            PlaybackCue::Restart => 0,
        };
        cue
    }
}

/// While a loop is active and the playhead is let on by no more than it takes
/// to reach the loop's end once, it stays before that end.
pub proof fn lemma_loop_holds_playhead(timeline: TimelineState, end: i64, t: i64)
    requires
        timeline.loop_enabled,
        timeline.loop_in_ms is Some,
        timeline.loop_out_ms is Some,
        timeline.loop_out_ms->0 > timeline.loop_in_ms->0,
        timeline.loop_out_ms->0 > 0,
    ensures
        cued(cue_at(timeline, end, t), t) < timeline.loop_out_ms->0,
{
}

/// Undoing an edit that remembered the state before it brings the script back.
pub proof fn lemma_edit_can_be_undone(before: Editor, after: Editor)
    requires
        before.wf(),
        after.remembers(&before),
    ensures
        after.history@.undone(after.script@).1 == before.script@,
{
    lemma_undo_restores_snapshot(before.history@, before.script@, after.script@);
}

/// An edit of the selection acts on the selected places, and on all where nothing is
/// selected.
pub proof fn lemma_edited_places(selected: Seq<usize>, n: nat, i: usize)
    requires
        n <= usize::MAX + 1,
    ensures
        edited_places(selected, n).contains(i) <==> selected.contains(i) || (selected.len() == 0 && i
            < n),
{
    lemma_indices_below(n);
}

/// Only the keyframes at the given places are changed; the others stay as they are, and
/// none is added or removed.
pub proof fn lemma_changed_at(
    s: Seq<Action>,
    places: Seq<usize>,
    f: spec_fn(int, Action) -> Action,
    i: int,
)
    requires
        0 <= i < s.len() <= usize::MAX,
    ensures
        changed_at(s, places, f).len() == s.len(),
        places.contains(i as usize) ==> changed_at(s, places, f)[i] == f(i, s[i]),
        !places.contains(i as usize) ==> changed_at(s, places, f)[i] == s[i],
{
}

/// Deleting removes the keyframes at the given places and no others, and keeps the order:
/// entry `j` of what is left is a keyframe at none of the places, with as many places to
/// its left as have been passed over.
pub proof fn lemma_deleted(s: Seq<Action>, places: Seq<usize>, n: nat, i: int) -> (j: int)
    requires
        0 <= i < n <= s.len() <= usize::MAX,
        !places.contains(i as usize),
    ensures
        0 <= j < without_indices(s, places, n).len(),
        j <= i,
        without_indices(s, places, n)[j] == s[i],
    decreases n,
{
    let head = without_indices(s, places, (n - 1) as nat);
    if i == n - 1 {
        lemma_deleted_len(s, places, (n - 1) as nat);
        head.len() as int
    } else {
        let j = lemma_deleted(s, places, (n - 1) as nat, i);
        assert(without_indices(s, places, n)[j] == head[j]);
        j
    }
}

/// The places below `n` that a deletion keeps.
pub open spec fn kept_places(places: Seq<usize>, n: nat) -> Set<int> {
    Set::new(|i: int| 0 <= i < n && !places.contains(i as usize))
}

/// As many keyframes are left as there are places that are kept, and each is a kept one of
/// the script.
pub proof fn lemma_deleted_len(s: Seq<Action>, places: Seq<usize>, n: nat)
    requires
        n <= s.len() <= usize::MAX,
    ensures
        kept_places(places, n).finite(),
        without_indices(s, places, n).len() == kept_places(places, n).len(),
        without_indices(s, places, n).len() <= n,
        strictly_timed(s) ==> forall|j: int, k: int|
            0 <= j < k < without_indices(s, places, n).len() ==> without_indices(s, places, n)[j].at
                < without_indices(s, places, n)[k].at,
        forall|j: int|
            0 <= j < without_indices(s, places, n).len() ==> exists|i: int|
                0 <= i < n && !places.contains(i as usize) && (#[trigger] s[i]) == (
                #[trigger] without_indices(s, places, n)[j]),
    decreases n,
{
    let kept = kept_places(places, n);
    let r = without_indices(s, places, n);
    if n == 0 {
        assert(kept =~= Set::empty());
    } else {
        let m = (n - 1) as nat;
        let fewer = kept_places(places, m);
        let head = without_indices(s, places, m);
        lemma_deleted_len(s, places, m);
        if places.contains(m as usize) {
            assert(kept =~= fewer);
            assert forall|j: int| 0 <= j < r.len() implies exists|i: int|
                0 <= i < n && !places.contains(i as usize) && (#[trigger] s[i])
                    == (#[trigger] r[j]) by {
                assert(r[j] == head[j]);
                let i = choose|i: int|
                    0 <= i < m && !places.contains(i as usize) && (#[trigger] s[i]) == head[j];
                assert(0 <= i < n && s[i] == r[j]);
            }
        } else {
            assert(kept =~= fewer.insert(m as int));
            assert forall|j: int| 0 <= j < r.len() implies exists|i: int|
                0 <= i < n && !places.contains(i as usize) && (#[trigger] s[i])
                    == (#[trigger] r[j]) by {
                if j == head.len() {
                    assert(s[m as int] == r[j]);
                } else {
                    assert(r[j] == head[j]);
                    let i = choose|i: int|
                        0 <= i < m && !places.contains(i as usize) && (#[trigger] s[i]) == head[j];
                    assert(0 <= i < n && s[i] == r[j]);
                }
            }
            if strictly_timed(s) {
                assert forall|j: int, k: int| 0 <= j < k < r.len() implies r[j].at < r[k].at by {
                    if k == head.len() {
                        assert(r[j] == head[j]);
                        let i = choose|i: int|
                            0 <= i < m && !places.contains(i as usize) && (#[trigger] s[i])
                                == head[j];
                        assert(s[i].at < s[m as int].at);
                    }
                }
            }
        }
    }
}

/// A nudge moves a valid position by the step, or to the end of the range where there is
/// less room, and leaves the time; up and down are mirror images.
pub proof fn lemma_nudged(a: Action, step: i32)
    requires
        0 <= a.pos <= 100,
        1 <= step <= 100,
    ensures
        nudged(a, true, step).at == a.at,
        nudged(a, false, step).at == a.at,
        a.pos + step <= 100 ==> nudged(a, true, step).pos == a.pos + step,
        a.pos + step > 100 ==> nudged(a, true, step).pos == 100,
        a.pos - step >= 0 ==> nudged(a, false, step).pos == a.pos - step,
        a.pos - step < 0 ==> nudged(a, false, step).pos == 0,
{
}

/// A shift moves a time by the amount, and back again where it did not meet an end.
pub proof fn lemma_shifted(a: Action, delta: i64)
    requires
        0 <= a.at,
    ensures
        moved_by(a, delta as int).pos == a.pos,
        0 <= a.at + delta <= i64::MAX ==> moved_by(a, delta as int).at == a.at + delta && moved_by(
            moved_by(a, delta as int),
            -delta,
        ) == a,
        a.at + delta < 0 ==> moved_by(a, delta as int).at == 0,
        a.at + delta > i64::MAX ==> moved_by(a, delta as int).at == i64::MAX,
{
}

/// A drag moves a keyframe by the distance in time and position, held at the ends.
pub proof fn lemma_dragged(a: Action, dt: int, dp: int)
    requires
        a.at >= 0,
        0 <= a.pos <= 100,
    ensures
        dragged(a, 0, 0) == a,
        0 <= dragged(a, dt, dp).pos <= 100,
        0 <= a.pos + dp <= 100 ==> dragged(a, dt, dp).pos == a.pos + dp,
        a.pos + dp > 100 ==> dragged(a, dt, dp).pos == 100,
        a.pos + dp < 0 ==> dragged(a, dt, dp).pos == 0,
        0 <= a.at + dt <= i64::MAX ==> dragged(a, dt, dp).at == a.at + dt,
        a.at + dt < 0 ==> dragged(a, dt, dp).at == 0,
        a.at + dt > i64::MAX ==> dragged(a, dt, dp).at == i64::MAX,
{
}

/// Snapping puts a keyframe at the beat's time and keeps its position; without a beat it
/// stays.
pub proof fn lemma_on_beat(a: Action, beat: Option<i64>)
    ensures
        on_beat(a, beat).pos == a.pos,
        beat matches Some(t) ==> on_beat(a, beat).at == t,
        beat is None ==> on_beat(a, beat).at == a.at,
{
}

/// The places found are those whose time is one of the given times, in order.
pub proof fn lemma_places_at(s: Seq<Action>, times: Seq<i64>, n: nat)
    requires
        n <= s.len() <= usize::MAX,
    ensures
        increasing(places_at(s, times, n)),
        forall|i: usize|
            #[trigger] places_at(s, times, n).contains(i) <==> i < n && times.contains(
                s[i as int].at,
            ),
    decreases n,
{
    let r = places_at(s, times, n);
    if n > 0 {
        let m = (n - 1) as usize;
        let head = places_at(s, times, m as nat);
        lemma_places_at(s, times, m as nat);
        assert forall|k: int| 0 <= k < head.len() implies #[trigger] head[k] < m by {
            assert(head.contains(head[k]));
        }
        assert forall|i: usize| #[trigger] r.contains(i) == (i < n && times.contains(
            s[i as int].at,
        )) by {
            if head.contains(i) {
                let k = choose|k: int| 0 <= k < head.len() && head[k] == i;
                assert(r[k] == i);
            }
            if i == m && times.contains(s[m as int].at) {
                assert(r[head.len() as int] == i);
            }
            if r.contains(i) {
                let k = choose|k: int| 0 <= k < r.len() && r[k] == i;
                if k < head.len() {
                    assert(head[k] == i);
                }
            }
        }
    }
}

/// The times collected are those of the keyframes at the given places.
pub proof fn lemma_times_at(s: Seq<Action>, places: Seq<usize>, n: nat, t: i64)
    requires
        n <= places.len(),
    ensures
        times_at(s, places, n).contains(t) <==> exists|k: int|
            0 <= k < n && (#[trigger] places[k]) < s.len() && s[places[k] as int].at == t,
    decreases n,
{
    let r = times_at(s, places, n);
    if n > 0 {
        let head = times_at(s, places, (n - 1) as nat);
        lemma_times_at(s, places, (n - 1) as nat, t);
        if head.contains(t) {
            let k = choose|k: int| 0 <= k < head.len() && head[k] == t;
            assert(r[k] == t);
        }
        if places[n - 1] < s.len() && s[places[n - 1] as int].at == t {
            assert(r[head.len() as int] == t);
        }
        if r.contains(t) {
            let k = choose|k: int| 0 <= k < r.len() && r[k] == t;
            if k < head.len() {
                assert(head[k] == t);
            } else {
                assert(places[n - 1] < s.len());
            }
        }
    } else if r.contains(t) {
        let k = choose|k: int| 0 <= k < r.len() && r[k] == t;
    }
}

/// The keyframes that an edit puts on another time, among those below `n`.
pub open spec fn snapped_places(
    s: Seq<Action>,
    places: Seq<usize>,
    beats: Seq<Option<i64>>,
    n: nat,
) -> Set<int> {
    Set::new(
        |i: int|
            0 <= i < n && places.contains(i as usize) && beats[i] is Some && beats[i]->0 != s[i].at,
    )
}

/// As many keyframes are counted as snapped as stand on another time afterwards.
pub proof fn lemma_snapped_are_counted(
    s: Seq<Action>,
    places: Seq<usize>,
    beats: Seq<Option<i64>>,
    n: nat,
)
    ensures
        snapped_places(s, places, beats, n).finite(),
        snapped_count(s, places, beats, n) == snapped_places(s, places, beats, n).len(),
    decreases n,
{
    let all = snapped_places(s, places, beats, n);
    if n == 0 {
        assert(all =~= Set::empty());
    } else {
        let fewer = snapped_places(s, places, beats, (n - 1) as nat);
        lemma_snapped_are_counted(s, places, beats, (n - 1) as nat);
        if places.contains((n - 1) as usize) && on_beat(s[n - 1], beats[n - 1]) != s[n - 1] {
            assert(all =~= fewer.insert(n - 1));
        } else {
            assert(all =~= fewer);
        }
    }
}

/// In a sorted script the keyframes before a time are the first ones, as many as counted.
pub proof fn lemma_counted_before(s: Seq<Action>, t: int, i: int)
    requires
        sorted_by_time(s),
        0 <= i < s.len(),
    ensures
        s[i].at < t <==> i < before_count(s, t, s.len()),
{
    lemma_counted_before_upto(s, t, s.len(), i);
}

proof fn lemma_counted_before_upto(s: Seq<Action>, t: int, n: nat, i: int)
    requires
        sorted_by_time(s),
        n <= s.len(),
        0 <= i < n,
    ensures
        s[i].at < t <==> i < before_count(s, t, n),
        before_count(s, t, n) <= n,
    decreases n,
{
    if n > 1 {
        lemma_counted_before_upto(s, t, (n - 1) as nat, if i < n - 1 {
            i
        } else {
            i - 1
        });
        if n > 1 {
            assert(s[n - 2].at <= s[n - 1].at);
            lemma_counted_before_upto(s, t, (n - 1) as nat, n - 2);
        }
        assert(s[i].at <= s[n - 1].at);
    } else {
        assert(before_count(s, t, 0) == 0);
    }
}

/// A playhead that reaches the end of a loop that is on goes back to its start. Otherwise it
/// goes back to zero behind the end of a script that has one, and else goes on.
pub proof fn lemma_playhead(timeline: TimelineState, end: i64, t: i64)
    ensures
        ({
            let looped = timeline.loop_enabled && timeline.loop_in_ms is Some
                && timeline.loop_out_ms is Some && timeline.loop_in_ms->0
                < timeline.loop_out_ms->0 <= t;
            let after = cued(cue_at(timeline, end, t), t);
            &&& looped ==> after == timeline.loop_in_ms->0
            &&& !looped && 0 < end < t ==> after == 0
            &&& !looped && !(0 < end < t) ==> after == t
        }),
{
}

/// A script is as long as its last keyframe's time, and none of a sorted one is later.
pub proof fn lemma_script_end(s: Seq<Action>, i: int)
    requires
        sorted_by_time(s),
        0 <= i < s.len(),
    ensures
        s[i].at <= script_end(s),
        i == s.len() - 1 ==> s[i].at == script_end(s),
{
}

impl Editor {
    /// An edit of keyframes gives the script those keyframes and leaves its version and
    /// metadata.
    pub proof fn lemma_has_actions(&self, before: &Editor, actions: Seq<Action>)
        requires
            self.has_actions(before, actions),
        ensures
            self.script.actions@ == actions,
            self.script@.version == before.script@.version,
            self.script@.metadata == before.script@.metadata,
    {
    }

    /// A nudge and a deletion act on the selected keyframes, or on the single one that is
    /// picked where none is selected; a deletion only where the script has it.
    pub proof fn lemma_places_acted_on(&self, i: usize)
        ensures
            self.timeline.selected_indices@.len() > 0 ==> {
                &&& self.nudged_places().contains(i) <==> self.timeline.selected_indices@.contains(i)
                &&& self.doomed_places().contains(i) <==> self.timeline.selected_indices@.contains(i)
            },
            self.timeline.selected_indices@.len() == 0 ==> {
                &&& self.nudged_places().contains(i) <==> self.timeline.selected_index == Some(i)
                &&& self.doomed_places().contains(i) <==> self.timeline.selected_index == Some(i)
                    && i < self.script.actions@.len()
            },
    {
        if self.timeline.selected_index is Some {
            let idx = self.timeline.selected_index->0;
            assert(seq![idx][0] == idx);
        }
    }

    /// What was selected before an edit in time is selected after it, by the times the
    /// keyframes have then; without a selection nothing of the timeline changes.
    pub proof fn lemma_selection_followed(&self, before: &Editor, times: Seq<i64>, i: usize)
        requires
            self.follows_selection(before, times),
            self.script.actions@.len() <= usize::MAX,
        ensures
            before.timeline.selected_indices@.len() == 0 ==> self.timeline == before.timeline,
            before.timeline.selected_indices@.len() > 0 ==> {
                let s = self.script.actions@;
                &&& self.timeline.selected_indices@.contains(i) <==> i < s.len() && times.contains(
                    s[i as int].at,
                )
                &&& self.timeline.selected_index is None <==> self.timeline.selected_indices@.len()
                    == 0
                &&& self.timeline.marquee_active == before.timeline.marquee_active
                &&& self.timeline.loop_in_ms == before.timeline.loop_in_ms
                &&& self.timeline.loop_out_ms == before.timeline.loop_out_ms
                &&& self.timeline.bookmarks == before.timeline.bookmarks
            },
    {
        lemma_places_at(self.script.actions@, times, self.script.actions@.len());
    }
}

/// A keyframe that is grabbed is selected then. Where it was not before, it is the only one,
/// or comes to the others where these are to stay.
pub proof fn lemma_grabbed(
    before: TimelineState,
    after: TimelineState,
    idx: usize,
    shift: bool,
    x: usize,
)
    requires
        grabbed(before, after, idx, shift),
    ensures
        after.selected_indices@.contains(idx) || after.selected_index == Some(idx),
        before.selected_indices@.contains(idx) ==> (after.selected_indices@.contains(x)
            <==> before.selected_indices@.contains(x)),
        !before.selected_indices@.contains(idx) && before.selected_index != Some(idx) ==> {
            &&& after.selected_index == Some(idx)
            &&& after.selected_indices@.contains(x) <==> x == idx || (shift
                && before.selected_indices@.contains(x))
        },
{
    assert(seq![idx][0] == idx);
}

} // verus!
