//! Bounded undo and redo of script edits.
use crate::funscript::{Funscript, FunscriptView};
use vstd::prelude::*;

verus! {

/// The contents of an [`UndoHistory`], oldest state first on either stack.
#[verifier::ext_equal]
pub struct HistoryView {
    pub undo: Seq<FunscriptView>,
    pub redo: Seq<FunscriptView>,
    pub max_depth: nat,
}

impl HistoryView {
    /// The depth is at least five and holds all states of both stacks.
    pub open spec fn valid(self) -> bool {
        &&& self.max_depth >= 5
        &&& self.undo.len() + self.redo.len() <= self.max_depth
    }

    /// An empty history of the given depth.
    pub open spec fn fresh(max_depth: nat) -> HistoryView {
        HistoryView {
            undo: Seq::empty(),
            redo: Seq::empty(),
            max_depth: if max_depth < 5 {
                5
            } else {
                max_depth
            },
        }
    }

    /// A state remembered: it goes on top, the oldest one leaves where the
    /// depth is reached, and nothing can be redone any more.
    pub open spec fn pushed(self, script: FunscriptView) -> HistoryView {
        HistoryView {
            undo: (if self.undo.len() >= self.max_depth {
                self.undo.skip(1)
            } else {
                self.undo
            }).push(script),
            redo: Seq::empty(),
            max_depth: self.max_depth,
        }
    }

    /// One step back from `current`.
    pub open spec fn undone(self, current: FunscriptView) -> (HistoryView, FunscriptView) {
        if self.undo.len() == 0 {
            (self, current)
        } else {
            (
                HistoryView {
                    undo: self.undo.drop_last(),
                    redo: self.redo.push(current),
                    max_depth: self.max_depth,
                },
                self.undo.last(),
            )
        }
    }

    /// One step forward from `current`.
    pub open spec fn redone(self, current: FunscriptView) -> (HistoryView, FunscriptView) {
        if self.redo.len() == 0 {
            (self, current)
        } else {
            (
                HistoryView {
                    undo: self.undo.push(current),
                    redo: self.redo.drop_last(),
                    max_depth: self.max_depth,
                },
                self.redo.last(),
            )
        }
    }
}

/// Undoing right after a snapshot brings the snapshot back, and what can be
/// undone then is what could be before it, but for a state the depth dropped.
pub proof fn lemma_undo_restores_snapshot(
    h: HistoryView,
    snapshot: FunscriptView,
    edited: FunscriptView,
)
    requires
        h.valid(),
    ensures
        h.pushed(snapshot).undone(edited).1 == snapshot,
        h.undo.len() < h.max_depth ==> h.pushed(snapshot).undone(edited).0.undo == h.undo,
        h.pushed(snapshot).undone(edited).0.redo == seq![edited],
{
    let p = h.pushed(snapshot);
    assert(p.undo.drop_last() =~= if h.undo.len() >= h.max_depth {
        h.undo.skip(1)
    } else {
        h.undo
    });
    assert(p.redo.push(edited) =~= seq![edited]);
}

/// Redo takes back an undo: history and script are as they were.
pub proof fn lemma_redo_after_undo(h: HistoryView, current: FunscriptView)
    requires
        h.undo.len() > 0,
    ensures
        ({
            let (h1, s1) = h.undone(current);
            h1.redone(s1) == (h, current)
        }),
{
    let (h1, s1) = h.undone(current);
    assert(h1.undo.push(s1) =~= h.undo);
    assert(h1.redo.drop_last() =~= h.redo);
}

/// Undo takes back a redo: history and script are as they were.
pub proof fn lemma_undo_after_redo(h: HistoryView, current: FunscriptView)
    requires
        h.redo.len() > 0,
    ensures
        ({
            let (h1, s1) = h.redone(current);
            h1.undone(s1) == (h, current)
        }),
{
    let (h1, s1) = h.redone(current);
    assert(h1.redo.push(s1) =~= h.redo);
    assert(h1.undo.drop_last() =~= h.undo);
}

/// Every step keeps a history valid, so that neither stack ever outgrows the
/// depth.
pub proof fn lemma_history_bounded(h: HistoryView, script: FunscriptView)
    requires
        h.valid(),
    ensures
        h.pushed(script).valid(),
        h.undone(script).0.valid(),
        h.redone(script).0.valid(),
        h.undo.len() <= h.max_depth,
        h.redo.len() <= h.max_depth,
{
}

/// A new history that has remembered these states one after the other.
pub open spec fn after_snapshots(max_depth: nat, states: Seq<FunscriptView>) -> HistoryView
    decreases states.len(),
{
    if states.len() == 0 {
        HistoryView::fresh(max_depth)
    } else {
        after_snapshots(max_depth, states.drop_last()).pushed(states.last())
    }
}

/// History and script after a number of steps back.
pub open spec fn undone_times(h: HistoryView, current: FunscriptView, steps: nat) -> (
    HistoryView,
    FunscriptView,
)
    decreases steps,
{
    if steps == 0 {
        (h, current)
    } else {
        let (g, s) = undone_times(h, current, (steps - 1) as nat);
        g.undone(s)
    }
}

/// How many of `n` states a history of the given depth still holds.
pub open spec fn kept_states(max_depth: nat, n: nat) -> nat {
    let depth = HistoryView::fresh(max_depth).max_depth;
    if n < depth {
        n
    } else {
        depth
    }
}

/// After any number of snapshots exactly as many undos succeed as the depth has room
/// for, and each brings back the newest state left: after `steps` of them the script is
/// the snapshot taken that many before the end, and another undo succeeds exactly
/// while a kept snapshot is left. Later undos change nothing.
pub proof fn lemma_snapshots_undone(
    max_depth: nat,
    states: Seq<FunscriptView>,
    current: FunscriptView,
    steps: nat,
)
    ensures
        ({
            let n = states.len();
            let kept = kept_states(max_depth, n);
            let (h, s) = undone_times(after_snapshots(max_depth, states), current, steps);
            let taken = if steps < kept {
                steps
            } else {
                kept
            };
            &&& h.undo == states.subrange(n - kept, n - taken)
            &&& h.undo.len() > 0 <==> steps < kept
            &&& s == (if taken == 0 {
                current
            } else {
                states[n - taken]
            })
        }),
    decreases steps,
{
    lemma_snapshots_kept(max_depth, states);
    let n = states.len();
    let kept = kept_states(max_depth, n);
    if steps == 0 {
        assert(states.skip(n - kept) =~= states.subrange(n - kept, n as int));
    } else {
        lemma_snapshots_undone(max_depth, states, current, (steps - 1) as nat);
        if steps <= kept {
            assert(states.subrange(n - kept, n - steps + 1).drop_last() =~= states.subrange(
                n - kept,
                n - steps,
            ));
        }
    }
}

proof fn lemma_snapshots_kept(max_depth: nat, states: Seq<FunscriptView>)
    ensures
        ({
            let h = after_snapshots(max_depth, states);
            let n = states.len();
            &&& h.max_depth == HistoryView::fresh(max_depth).max_depth
            &&& h.undo == states.skip(n - kept_states(max_depth, n))
        }),
    decreases states.len(),
{
    let n = states.len();
    let h = after_snapshots(max_depth, states);
    if n > 0 {
        lemma_snapshots_kept(max_depth, states.drop_last());
    }
    assert(h.undo =~= states.skip(n - kept_states(max_depth, n)));
}

/// Bounded undo/redo history manager for keyframe editing.
#[derive(Debug, PartialEq)]
pub struct UndoHistory {
    undo_stack: Vec<Funscript>,
    redo_stack: Vec<Funscript>,
    max_depth: usize,
}

impl View for UndoHistory {
    type V = HistoryView;

    closed spec fn view(&self) -> HistoryView {
        HistoryView {
            undo: self.undo_stack@.map_values(|s: Funscript| s@),
            redo: self.redo_stack@.map_values(|s: Funscript| s@),
            max_depth: self.max_depth as nat,
        }
    }
}

impl Default for UndoHistory {
    fn default() -> (res: Self)
        ensures
            res@ == HistoryView::fresh(50),
            res@.valid(),
    {
        UndoHistory::new(50)
    }
}

impl UndoHistory {
    /// An empty history that remembers up to `max_depth` states, at least five.
    pub fn new(max_depth: usize) -> (res: Self)
        ensures
            res@ == HistoryView::fresh(max_depth as nat),
            res@.valid(),
    {
        let res = UndoHistory {
            undo_stack: Vec::new(),
            redo_stack: Vec::new(),
            max_depth: if max_depth < 5 {
                5
            } else {
                max_depth
            },
        };
        assert(res@ =~= HistoryView::fresh(max_depth as nat));
        res
    }

    /// Push current state to undo history before making modifications.
    pub fn push_snapshot(&mut self, script: &Funscript)
        requires
            old(self)@.valid(),
        ensures
            final(self)@ == old(self)@.pushed(script@),
            final(self)@.valid(),
    {
        if self.undo_stack.len() >= self.max_depth {
            let _ = self.undo_stack.remove(0);
            assert(self@.undo =~= old(self)@.undo.skip(1));
        }
        let ghost kept = self@.undo;
        self.undo_stack.push(script.clone());
        self.redo_stack.clear();
        assert(self@.undo =~= kept.push(script@));
        assert(self@ =~= old(self)@.pushed(script@));
    }

    /// Undo to previous state. Returns true if undo was performed.
    pub fn undo(&mut self, current: &mut Funscript) -> (done: bool)
        requires
            old(self)@.valid(),
        ensures
            done == (old(self)@.undo.len() > 0),
            (final(self)@, final(current)@) == old(self)@.undone(old(current)@),
            !done ==> *final(current) == *old(current),
            final(self)@.valid(),
    {
        match self.undo_stack.pop() {
            Some(prev) => {
                self.redo_stack.push(current.clone());
                *current = prev;
                assert(self@.undo =~= old(self)@.undo.drop_last());
                assert(self@.redo =~= old(self)@.redo.push(old(current)@));
                true
            },
            None => {
                assert(self@ =~= old(self)@);
                false
            },
        }
    }

    /// Redo to next state. Returns true if redo was performed.
    pub fn redo(&mut self, current: &mut Funscript) -> (done: bool)
        requires
            old(self)@.valid(),
        ensures
            done == (old(self)@.redo.len() > 0),
            (final(self)@, final(current)@) == old(self)@.redone(old(current)@),
            !done ==> *final(current) == *old(current),
            final(self)@.valid(),
    {
        match self.redo_stack.pop() {
            Some(next) => {
                self.undo_stack.push(current.clone());
                *current = next;
                assert(self@.redo =~= old(self)@.redo.drop_last());
                assert(self@.undo =~= old(self)@.undo.push(old(current)@));
                true
            },
            None => {
                assert(self@ =~= old(self)@);
                false
            },
        }
    }

    pub fn can_undo(&self) -> (res: bool)
        ensures
            res == (self@.undo.len() > 0),
    {
        !self.undo_stack.is_empty()
    }

    pub fn can_redo(&self) -> (res: bool)
        ensures
            res == (self@.redo.len() > 0),
    {
        !self.redo_stack.is_empty()
    }

    /// Forgets every state.
    pub fn clear(&mut self)
        requires
            old(self)@.valid(),
        ensures
            final(self)@ == HistoryView::fresh(old(self)@.max_depth),
            final(self)@.valid(),
    {
        self.undo_stack.clear();
        self.redo_stack.clear();
        assert(self@ =~= HistoryView::fresh(old(self)@.max_depth));
    }
}

/// A history remembers as many states as asked for, at least five: with fewer than that many
/// none is dropped.
pub proof fn lemma_depth(max_depth: nat, script: FunscriptView)
    ensures
        HistoryView::fresh(max_depth).valid(),
        HistoryView::fresh(max_depth).max_depth >= 5,
        max_depth >= 5 ==> HistoryView::fresh(max_depth).max_depth == max_depth,
        max_depth < 5 ==> HistoryView::fresh(max_depth).max_depth == 5,
        HistoryView::fresh(max_depth).undone(script).1 == script,
        HistoryView::fresh(max_depth).redone(script).1 == script,
{
}

} // verus!
