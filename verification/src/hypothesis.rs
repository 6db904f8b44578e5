//! Competing explanations of an occluded motion, and how a forward and a
//! backward estimate are reconciled.
use crate::level::{is_last_peak, last_peak, Level};
use crate::text::same_text;
use vstd::prelude::*;

verus! {

/// Explicit observability classification of an estimated motion point
#[derive(Debug, Clone, Copy, PartialEq, Eq, Structural)]
pub enum ObservabilityState {
    /// Directly observed via high-confidence neural detection or consistent point tracks
    Observed,
    /// Inferred during occlusion via hypothesis selection, shaft extrapolation, or audio transients
    Inferred,
    /// Kinematically unobservable interval; wide calibrated uncertainty bounds
    Unresolved,
}

/// A predicted position at a time, the position given by its raw bits.
#[derive(Debug, Clone, Copy, PartialEq, Eq, Structural)]
pub struct PathPoint {
    pub timestamp_ms: i64,
    pub pos: u32,
}

/// A candidate trajectory hypothesis over an ambiguous time window
#[derive(Debug)]
pub struct TrajectoryHypothesis {
    pub hypothesis_id: usize,
    pub label: String,
    /// Predicted coordinate sequence
    pub path: Vec<PathPoint>,
    /// Accumulated likelihood / log-probability score
    pub log_likelihood: Level,
    /// Estimated variance / uncertainty, by the bits of its floating-point number
    pub variance_bits: u32,
    /// How often an audio transient spoke for the hypothesis
    pub audio_alignment: u32,
}

/// The contents of a [`TrajectoryHypothesis`].
#[verifier::ext_equal]
pub struct HypothesisView {
    pub hypothesis_id: int,
    pub label: Seq<char>,
    pub path: Seq<PathPoint>,
    pub log_likelihood: Level,
    pub variance_bits: u32,
    pub audio_alignment: int,
}

impl View for TrajectoryHypothesis {
    type V = HypothesisView;

    open spec fn view(&self) -> HypothesisView {
        HypothesisView {
            hypothesis_id: self.hypothesis_id as int,
            label: self.label@,
            path: self.path@,
            log_likelihood: self.log_likelihood,
            variance_bits: self.variance_bits,
            audio_alignment: self.audio_alignment as int,
        }
    }
}

/// A hypothesis whose path starts at `from` and leads to `to`.
pub open spec fn branched(
    id: int,
    label: Seq<char>,
    from: u32,
    to: u32,
    timestamp_ms: i64,
    likelihood: Level,
    variance_bits: u32,
) -> HypothesisView {
    HypothesisView {
        hypothesis_id: id,
        label,
        path: seq![PathPoint { timestamp_ms: 0, pos: from }, PathPoint { timestamp_ms, pos: to }],
        log_likelihood: likelihood,
        variance_bits,
        audio_alignment: 0,
    }
}

impl TrajectoryHypothesis {
    pub fn new(
        hypothesis_id: usize,
        label: &str,
        initial_pos: u32,
        log_likelihood: Level,
        variance_bits: u32,
    ) -> (res: Self)
        ensures
            res@ == (HypothesisView {
                hypothesis_id: hypothesis_id as int,
                label: label@,
                path: seq![PathPoint { timestamp_ms: 0, pos: initial_pos }],
                log_likelihood,
                variance_bits,
                audio_alignment: 0,
            }),
    {
        let res = TrajectoryHypothesis {
            hypothesis_id,
            label: label.to_owned(),
            path: vec![PathPoint { timestamp_ms: 0, pos: initial_pos }],
            log_likelihood,
            variance_bits,
            audio_alignment: 0,
        };
        assert(res.path@ =~= seq![PathPoint { timestamp_ms: 0, pos: initial_pos }]);
        res
    }
}

/// The bits of 25.0, the variance of a motion that goes on
pub const VARIANCE_CONTINUATION: u32 = 0x41c80000;

/// The bits of 35.0, the variance of a motion that turns back
pub const VARIANCE_REVERSAL: u32 = 0x420c0000;

/// The bits of 45.0, the variance of a motion that rests
pub const VARIANCE_DWELL: u32 = 0x42340000;

/// The largest count that an alignment score still tells from its successor.
pub const MAX_ALIGNMENT: u32 = 16_777_216;

/// An alignment score that has gone up by one, as far as it can.
pub open spec fn aligned_once_more(alignment: int) -> int {
    if alignment < MAX_ALIGNMENT {
        alignment + 1
    } else {
        alignment
    }
}

/// By how many tenths a hypothesis's log-likelihood changes, one change after
/// the other: first for an audio transient, then for the visible shaft, which
/// moves with the hypothesis, against it, or is not seen.
pub open spec fn evidence_changes(label: Seq<char>, audio: bool, agreement: Option<bool>) -> Seq<
    i32,
> {
    let heard: Seq<i32> = if audio && label == "reversal"@ {
        seq![25i32]
    } else if audio && label == "continuation"@ {
        seq![-15i32]
    } else {
        Seq::empty()
    };
    match agreement {
        Some(true) => heard.push(12i32),
        Some(false) => heard.push(-10i32),
        None => heard,
    }
}

/// By how many tenths a hypothesis's log-likelihood changes on new evidence,
/// one change after the other.
pub fn evidence_tenths(label: &str, has_audio_transient: bool, agreement: Option<bool>) -> (changes:
    Vec<i32>)
    ensures
        changes@ == evidence_changes(label@, has_audio_transient, agreement),
{
    let mut changes: Vec<i32> = Vec::new();
    if has_audio_transient {
        if same_text(label, "reversal") {
            changes.push(25);
        } else if same_text(label, "continuation") {
            changes.push(-15);
        }
    }
    match agreement {
        Some(true) => changes.push(12),
        Some(false) => changes.push(-10),
        None => {},
    }
    assert(changes@ =~= evidence_changes(label@, has_audio_transient, agreement));
    changes
}

/// A hypothesis after new evidence: its score is `likelihood`, its variance is as given,
/// and its path goes on where it stood.
pub open spec fn evidenced(
    h: HypothesisView,
    timestamp_ms: i64,
    audio: bool,
    likelihood: Level,
    variance_bits: u32,
    rest: u32,
) -> HypothesisView {
    HypothesisView {
        path: h.path.push(
            PathPoint {
                timestamp_ms,
                pos: if h.path.len() > 0 {
                    h.path.last().pos
                } else {
                    rest
                },
            },
        ),
        log_likelihood: likelihood,
        variance_bits,
        audio_alignment: if audio && h.label == "reversal"@ {
            aligned_once_more(h.audio_alignment)
        } else {
            h.audio_alignment
        },
        ..h
    }
}

/// The contents of a list of hypotheses.
pub open spec fn hypothesis_views(s: Seq<TrajectoryHypothesis>) -> Seq<HypothesisView> {
    s.map_values(|h: TrajectoryHypothesis| h@)
}

/// Dynamic hypothesis tree and bidirectional reconciler
#[derive(Debug)]
pub struct HypothesisEngine {
    pub active_hypotheses: Vec<TrajectoryHypothesis>,
}

impl HypothesisEngine {
    pub fn new() -> (res: Self)
        ensures
            res.active_hypotheses.len() == 0,
    {
        HypothesisEngine { active_hypotheses: Vec::new() }
    }

    /// Reset engine
    pub fn reset(&mut self)
        ensures
            final(self).active_hypotheses.len() == 0,
    {
        self.active_hypotheses.clear();
    }

    /// Initialize competing hypotheses for an occlusion event (e.g. penetration
    /// vs reversal vs dwell): the motion goes on to `continued`, turns back to
    /// `reversed`, or stays at `current`. Their variances are 25, 35 and 45.
    pub fn branch_occlusion_hypotheses(
        &mut self,
        current: u32,
        continued: u32,
        reversed: u32,
        timestamp_ms: i64,
        likelihoods: (Level, Level, Level),
    )
        ensures
            hypothesis_views(final(self).active_hypotheses@) == seq![
                branched(
                    0,
                    "continuation"@,
                    current,
                    continued,
                    timestamp_ms,
                    likelihoods.0,
                    VARIANCE_CONTINUATION,
                ),
                branched(
                    1,
                    "reversal"@,
                    current,
                    reversed,
                    timestamp_ms,
                    likelihoods.1,
                    VARIANCE_REVERSAL,
                ),
                branched(
                    2,
                    "dwell"@,
                    current,
                    current,
                    timestamp_ms,
                    likelihoods.2,
                    VARIANCE_DWELL,
                ),
            ],
    {
        self.active_hypotheses.clear();
        let mut cont = TrajectoryHypothesis::new(
            0,
            "continuation",
            current,
            likelihoods.0,
            VARIANCE_CONTINUATION,
        );
        cont.path.push(PathPoint { timestamp_ms, pos: continued });
        let mut rev = TrajectoryHypothesis::new(
            1,
            "reversal",
            current,
            likelihoods.1,
            VARIANCE_REVERSAL,
        );
        rev.path.push(PathPoint { timestamp_ms, pos: reversed });
        let mut dwell = TrajectoryHypothesis::new(
            2,
            "dwell",
            current,
            likelihoods.2,
            VARIANCE_DWELL,
        );
        dwell.path.push(PathPoint { timestamp_ms, pos: current });
        proof {
            assert(cont@ =~= branched(
                0,
                "continuation"@,
                current,
                continued,
                timestamp_ms,
                likelihoods.0,
                VARIANCE_CONTINUATION,
            ));
            assert(rev@ =~= branched(
                1,
                "reversal"@,
                current,
                reversed,
                timestamp_ms,
                likelihoods.1,
                VARIANCE_REVERSAL,
            ));
            assert(dwell@ =~= branched(
                2,
                "dwell"@,
                current,
                current,
                timestamp_ms,
                likelihoods.2,
                VARIANCE_DWELL,
            ));
        }
        let ghost parts = seq![cont@, rev@, dwell@];
        self.active_hypotheses.push(cont);
        self.active_hypotheses.push(rev);
        self.active_hypotheses.push(dwell);
        assert(hypothesis_views(self.active_hypotheses@) =~= parts);
    }

    /// Takes in new evidence: `likelihoods[i]` is the score of hypothesis `i`
    /// once the changes of [`evidence_tenths`] have been made, and `variances[i]` the
    /// bits of its variance, which has grown. A hypothesis without a path rests at
    /// `rest`.
    pub fn update_evidence(
        &mut self,
        timestamp_ms: i64,
        has_audio_transient: bool,
        likelihoods: &Vec<Level>,
        variances: &Vec<u32>,
        rest: u32,
    )
        requires
            likelihoods.len() == old(self).active_hypotheses.len(),
            variances.len() == old(self).active_hypotheses.len(),
        ensures
            final(self).active_hypotheses.len() == old(self).active_hypotheses.len(),
            forall|i: int|
                0 <= i < likelihoods.len() ==> (#[trigger] final(self).active_hypotheses@[i])@
                    == evidenced(
                    old(self).active_hypotheses@[i]@,
                    timestamp_ms,
                    has_audio_transient,
                    likelihoods@[i],
                    variances@[i],
                    rest,
                ),
    {
        let n: usize = self.active_hypotheses.len();
        let mut i: usize = 0;
        while i < n
            invariant
                i <= n,
                n == likelihoods.len(),
                n == variances.len(),
                n == self.active_hypotheses.len(),
                n == old(self).active_hypotheses.len(),
                forall|k: int|
                    0 <= k < n ==> (#[trigger] self.active_hypotheses@[k])@ == (if k < i {
                        evidenced(
                            old(self).active_hypotheses@[k]@,
                            timestamp_ms,
                            has_audio_transient,
                            likelihoods@[k],
                            variances@[k],
                            rest,
                        )
                    } else {
                        old(self).active_hypotheses@[k]@
                    }),
            decreases n - i,
        {
            let ghost prior = self.active_hypotheses@[i as int]@;
            let h: &mut TrajectoryHypothesis = &mut self.active_hypotheses[i];
            if has_audio_transient && same_text(h.label.as_str(), "reversal") {
                if h.audio_alignment < MAX_ALIGNMENT {
                    h.audio_alignment += 1;
                }
            }
            h.log_likelihood = likelihoods[i];
            h.variance_bits = variances[i];
            let pos: u32 = if h.path.len() > 0 {
                h.path[h.path.len() - 1].pos
            } else {
                rest
            };
            h.path.push(PathPoint { timestamp_ms, pos });
            assert(h@ =~= evidenced(
                prior,
                timestamp_ms,
                has_audio_transient,
                likelihoods@[i as int],
                variances@[i as int],
                rest,
            ));
            i += 1;
        }
    }

    /// Select the highest-likelihood hypothesis, the last one among equals
    pub fn select_best_hypothesis(&self) -> (res: Option<usize>)
        ensures
            res is None <==> self.active_hypotheses.len() == 0,
            res matches Some(i) ==> is_last_peak(
                likelihoods_of(self.active_hypotheses@),
                i as int,
            ),
    {
        let mut levels: Vec<Level> = Vec::new();
        let mut i: usize = 0;
        while i < self.active_hypotheses.len()
            invariant
                i <= self.active_hypotheses.len(),
                levels@ == likelihoods_of(self.active_hypotheses@).take(i as int),
            decreases self.active_hypotheses.len() - i,
        {
            levels.push(self.active_hypotheses[i].log_likelihood);
            i += 1;
            assert(levels@ =~= likelihoods_of(self.active_hypotheses@).take(i as int));
        }
        assert(levels@ =~= likelihoods_of(self.active_hypotheses@));
        last_peak(&levels)
    }

    /// Bayesian Bidirectional Temporal Reconciliation: which of a forward and a
    /// backward estimate a frame takes. Where they agree they are fused. Where
    /// they conflict they are not averaged blindly: the one that is clearly more
    /// certain wins, or the interval is unresolved.
    pub fn reconcile_bidirectional(
        agree: bool,
        fused_is_tight: bool,
        forward_is_clear: bool,
        backward_is_clear: bool,
    ) -> (res: ReconciledFrame)
        ensures
            res == reconciled(agree, fused_is_tight, forward_is_clear, backward_is_clear),
    {
        if agree {
            ReconciledFrame {
                source: EstimateSource::Fused,
                observability: if fused_is_tight {
                    ObservabilityState::Observed
                } else {
                    ObservabilityState::Inferred
                },
                dominant_hypothesis_id: 0,
            }
        } else if forward_is_clear {
            ReconciledFrame {
                source: EstimateSource::Forward,
                observability: ObservabilityState::Inferred,
                dominant_hypothesis_id: 0,
            }
        } else if backward_is_clear {
            ReconciledFrame {
                source: EstimateSource::Backward,
                observability: ObservabilityState::Inferred,
                dominant_hypothesis_id: 1,
            }
        } else {
            ReconciledFrame {
                source: EstimateSource::Midpoint,
                observability: ObservabilityState::Unresolved,
                dominant_hypothesis_id: 99,
            }
        }
    }
}

/// The scores of a list of hypotheses.
pub open spec fn likelihoods_of(s: Seq<TrajectoryHypothesis>) -> Seq<Level> {
    s.map_values(|h: TrajectoryHypothesis| h.log_likelihood)
}

/// Where a reconciled position comes from.
#[derive(Debug, Clone, Copy, PartialEq, Eq, Structural)]
pub enum EstimateSource {
    /// The average weighted by certainty
    Fused,
    Forward,
    Backward,
    /// The plain mean, with widened uncertainty
    Midpoint,
}

/// Reconciled state for a single temporal frame
#[derive(Debug, Clone, Copy, PartialEq, Eq, Structural)]
pub struct ReconciledFrame {
    pub source: EstimateSource,
    /// Observability classification
    pub observability: ObservabilityState,
    /// ID of the dominant winning hypothesis
    pub dominant_hypothesis_id: usize,
}

/// How two estimates are reconciled.
pub open spec fn reconciled(
    agree: bool,
    fused_is_tight: bool,
    forward_is_clear: bool,
    backward_is_clear: bool,
) -> ReconciledFrame {
    let (source, observability, id) = if agree && fused_is_tight {
        (EstimateSource::Fused, ObservabilityState::Observed, 0)
    } else if agree {
        (EstimateSource::Fused, ObservabilityState::Inferred, 0)
    } else if forward_is_clear {
        (EstimateSource::Forward, ObservabilityState::Inferred, 0)
    } else if backward_is_clear {
        (EstimateSource::Backward, ObservabilityState::Inferred, 1)
    } else {
        (EstimateSource::Midpoint, ObservabilityState::Unresolved, 99int)
    };
    ReconciledFrame { source, observability, dominant_hypothesis_id: id as usize }
}

/// Conflicting estimates are never taken as observed, and an interval is
/// unresolved exactly where they conflict and neither is clearly better.
pub proof fn lemma_conflict_not_observed(a: bool, t: bool, f: bool, b: bool)
    ensures
        !a ==> reconciled(a, t, f, b).observability != ObservabilityState::Observed,
        reconciled(a, t, f, b).observability == ObservabilityState::Unresolved <==> !a && !f && !b,
        a <==> reconciled(a, t, f, b).source == EstimateSource::Fused,
{
}

/// A sound speaks for a reversal and against a continuation, and says nothing of a dwell; a
/// shaft that moves along speaks for a hypothesis, and one that moves against it, against.
/// Without either nothing changes.
pub proof fn lemma_evidence(label: Seq<char>, audio: bool, agreement: Option<bool>)
    ensures
        ({
            let changes = evidence_changes(label, audio, agreement);
            let heard = audio && (label == "reversal"@ || label == "continuation"@);
            &&& changes.len() == (if heard {
                1int
            } else {
                0int
            }) + (if agreement is Some {
                1int
            } else {
                0int
            })
            &&& audio && label == "reversal"@ ==> changes[0] == 25
            &&& audio && label == "continuation"@ ==> changes[0] == -15
            &&& agreement == Some(true) ==> changes.last() == 12
            &&& agreement == Some(false) ==> changes.last() == -10
        }),
{
    reveal_strlit("reversal");
    reveal_strlit("continuation");
    assert("reversal"@.len() != "continuation"@.len());
}

/// New evidence keeps a hypothesis's number, name and path so far, and carries the path on
/// at its last position; only a reversal that is heard is aligned once more.
pub proof fn lemma_evidenced(
    h: HypothesisView,
    timestamp_ms: i64,
    audio: bool,
    likelihood: Level,
    variance_bits: u32,
    rest: u32,
)
    requires
        h.path.len() > 0,
    ensures
        ({
            let after = evidenced(h, timestamp_ms, audio, likelihood, variance_bits, rest);
            &&& after.hypothesis_id == h.hypothesis_id
            &&& after.label == h.label
            &&& after.path.drop_last() == h.path
            &&& after.path.last().timestamp_ms == timestamp_ms
            &&& after.path.last().pos == h.path[h.path.len() - 1].pos
            &&& after.log_likelihood == likelihood
            &&& after.variance_bits == variance_bits
            &&& audio && h.label == "reversal"@ && h.audio_alignment < 16_777_216
                ==> after.audio_alignment == h.audio_alignment + 1
            &&& !(audio && h.label == "reversal"@) ==> after.audio_alignment == h.audio_alignment
        }),
{
    let after = evidenced(h, timestamp_ms, audio, likelihood, variance_bits, rest);
    assert(after.path.drop_last() =~= h.path);
}

/// A new hypothesis leads from where the motion stands at time zero to where it is expected
/// at the given time.
pub proof fn lemma_branched(
    id: int,
    label: Seq<char>,
    from: u32,
    to: u32,
    timestamp_ms: i64,
    likelihood: Level,
    variance_bits: u32,
)
    ensures
        ({
            let h = branched(id, label, from, to, timestamp_ms, likelihood, variance_bits);
            &&& h.path.len() == 2
            &&& h.path[0].timestamp_ms == 0 && h.path[0].pos == from
            &&& h.path[1].timestamp_ms == timestamp_ms && h.path[1].pos == to
            &&& h.hypothesis_id == id && h.label == label
            &&& h.log_likelihood == likelihood && h.variance_bits == variance_bits
            &&& h.audio_alignment == 0
        }),
{
}

/// Of conflicting estimates the clear one is taken, the forward one first, and is inferred;
/// agreeing ones are observed exactly where their average is tight.
pub proof fn lemma_clear_estimate_wins(a: bool, t: bool, f: bool, b: bool)
    ensures
        reconciled(a, t, f, b).source is Forward <==> !a && f,
        reconciled(a, t, f, b).source is Backward <==> !a && !f && b,
        reconciled(a, t, f, b).source is Midpoint <==> !a && !f && !b,
        reconciled(a, t, f, b).observability is Observed <==> a && t,
        reconciled(a, t, f, b).dominant_hypothesis_id == 1 <==> !a && !f && b,
        reconciled(a, t, f, b).dominant_hypothesis_id == 0 <==> a || f,
        reconciled(a, t, f, b).dominant_hypothesis_id == 99 <==> !a && !f && !b,
{
}

/// The hypothesis that is selected is at least as likely as every other, and more likely than
/// every later one.
pub proof fn lemma_selected_is_likeliest(s: Seq<TrajectoryHypothesis>, i: int, k: int)
    requires
        is_last_peak(likelihoods_of(s), i),
        0 <= k < s.len(),
    ensures
        0 <= i < s.len(),
        s[k].log_likelihood.key <= s[i].log_likelihood.key,
        k > i ==> s[k].log_likelihood.key < s[i].log_likelihood.key,
{
    let levels = likelihoods_of(s);
    assert(levels[k] == s[k].log_likelihood);
    assert(levels[i] == s[i].log_likelihood);
}

} // verus!
