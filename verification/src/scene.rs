//! The scene around the editor: where every axis stands, what the generator and a
//! headset report, and what the status line shows.
use crate::axis::{
    axes_below, axis_at, lemma_ranks, rank, tcode_name, AxisChannel, MultiAxisScript,
};
use crate::editor::{counted_text, say_count, Editor};
use crate::funscript::{sampled_at, Action, Funscript, PositionSample};
use crate::scurve::{blend_of, curve_sampled, eval_scurve, CurveSample, SCurvePreset};
use crate::text::{append_signed, decimal_int};
use crate::timeline::TimelineState;
use vstd::prelude::*;
use vstd::string::*;

verus! {

/// Where a script stands at a time.
#[derive(Debug, Clone, Copy, PartialEq, Eq, Structural)]
pub enum Reading {
    /// On the smoothed curve
    Curve(CurveSample),
    /// On the straight lines between keyframes
    Linear(PositionSample),
    /// In the middle, since there is no script to follow
    Rest,
}

/// Where an axis stands at a time, and whether a hot motor attenuates it.
#[derive(Debug, Clone, Copy, PartialEq, Eq, Structural)]
pub struct AxisReading {
    pub axis: AxisChannel,
    pub reading: Reading,
    pub attenuated: bool,
}

/// `reading` is where keyframes stand at a time: on the curve where there is a
/// blend radius, else on the lines.
pub open spec fn is_reading(s: Seq<Action>, t: i64, radius: i64, reading: Reading) -> bool {
    if radius > 0 {
        reading matches Reading::Curve(c) && curve_sampled(s, t as int, radius as int, c)
    } else {
        reading matches Reading::Linear(p) && sampled_at(s, t, p)
    }
}

impl Editor {
    /// The keyframes that drive an axis: those being edited, or the bundle's.
    pub open spec fn driving(&self, axis: AxisChannel) -> Seq<Action> {
        if axis == self.active_axis {
            self.script.actions@
        } else if self.multi_axis@.dom().contains(axis) {
            self.multi_axis@[axis].actions
        } else {
            Seq::empty()
        }
    }

    /// The axes that are driven, among the first `n` in the listed order.
    pub open spec fn driven(&self, n: nat) -> Seq<AxisChannel>
        decreases n,
    {
        if n == 0 {
            Seq::empty()
        } else if self.driving(axis_at(n - 1)).len() > 0 {
            self.driven((n - 1) as nat).push(axis_at(n - 1))
        } else {
            self.driven((n - 1) as nat)
        }
    }

    /// Where every driven axis stands at the playhead, in the listed order; the
    /// stroke rests where no axis is driven.
    pub fn evaluate_current_positions(&self, preset: SCurvePreset) -> (readings: Vec<AxisReading>)
        ensures
            self.driven(7).len() == 0 ==> readings@ == seq![
                AxisReading {
                    axis: AxisChannel::Stroke,
                    reading: Reading::Rest,
                    attenuated: false,
                },
            ],
            self.driven(7).len() > 0 ==> {
                &&& readings.len() == self.driven(7).len()
                &&& forall|i: int|
                    0 <= i < readings.len() ==> {
                        let r = #[trigger] readings@[i];
                        &&& r.axis == self.driven(7)[i]
                        &&& r.attenuated == (r.axis == AxisChannel::Stroke)
                        &&& is_reading(
                            self.driving(r.axis),
                            self.timeline.cursor_time_ms,
                            blend_of(preset),
                            r.reading,
                        )
                    }
            },
    {
        let t: i64 = self.timeline.cursor_time_ms;
        let radius: i64 = preset.blend_radius_ms();
        let mut readings: Vec<AxisReading> = Vec::new();
        let mut i: usize = 0;
        while i < 7
            invariant
                i <= 7,
                t == self.timeline.cursor_time_ms,
                radius == blend_of(preset),
                readings.len() == self.driven(i as nat).len(),
                forall|k: int|
                    0 <= k < readings.len() ==> {
                        let r = #[trigger] readings@[k];
                        &&& r.axis == self.driven(i as nat)[k]
                        &&& r.attenuated == (r.axis == AxisChannel::Stroke)
                        &&& is_reading(self.driving(r.axis), t, radius, r.reading)
                    },
            decreases 7 - i,
        {
            let axis: AxisChannel = AxisChannel::from_index(i);
            let driver: Option<&Funscript> = if axis == self.active_axis {
                Some(&self.script)
            } else {
                self.multi_axis.get(axis)
            };
            if let Some(script) = driver {
                assert(script.actions@ == self.driving(axis));
                if script.actions.len() > 0 {
                    let reading: Reading = if radius > 0 {
                        Reading::Curve(eval_scurve(&script.actions, t, radius))
                    } else {
                        Reading::Linear(script.interpolate_position(t))
                    };
                    readings.push(
                        AxisReading { axis, reading, attenuated: axis == AxisChannel::Stroke },
                    );
                }
            }
            i += 1;
        }
        if readings.len() == 0 {
            readings.push(
                AxisReading {
                    axis: AxisChannel::Stroke,
                    reading: Reading::Rest,
                    attenuated: false,
                },
            );
            assert(readings@ =~= seq![
                AxisReading {
                    axis: AxisChannel::Stroke,
                    reading: Reading::Rest,
                    attenuated: false,
                },
            ]);
        }
        readings
    }

    /// The axes other than the active one that have keyframes to show behind it,
    /// in the listed order.
    pub fn ghost_axes(&self, show: bool) -> (axes: Vec<AxisChannel>)
        ensures
            axes@ == (if show {
                self.ghosts_below(7)
            } else {
                Seq::empty()
            }),
    {
        let mut axes: Vec<AxisChannel> = Vec::new();
        if !show {
            return axes;
        }
        let mut i: usize = 0;
        while i < 7
            invariant
                i <= 7,
                axes@ == self.ghosts_below(i as nat),
            decreases 7 - i,
        {
            let axis: AxisChannel = AxisChannel::from_index(i);
            if axis != self.active_axis {
                if let Some(script) = self.multi_axis.get(axis) {
                    if script.actions.len() > 0 {
                        axes.push(axis);
                    }
                }
            }
            i += 1;
        }
        axes
    }

    /// The axes to show behind the active one, among the first `n`.
    pub open spec fn ghosts_below(&self, n: nat) -> Seq<AxisChannel>
        decreases n,
    {
        if n == 0 {
            Seq::empty()
        } else {
            let head = self.ghosts_below((n - 1) as nat);
            let axis = axis_at(n - 1);
            if axis != self.active_axis && self.driving(axis).len() > 0 {
                head.push(axis)
            } else {
                head
            }
        }
    }

    /// How many keyframes an axis has, and how its button is labelled.
    pub fn axis_button(&self, axis: AxisChannel) -> (res: (usize, String))
        ensures
            res.0 == self.driving(axis).len(),
            res.1@ == (if axis == self.active_axis {
                "● "@
            } else {
                "○ "@
            }) + counted_text(tcode_name(axis) + " ("@, self.driving(axis).len(), ")"@),
    {
        let count: usize = if axis == self.active_axis {
            self.script.actions.len()
        } else {
            match self.multi_axis.get(axis) {
                Some(script) => script.actions.len(),
                None => 0,
            }
        };
        let mut name: String = axis.tcode_axis().to_owned();
        name.append(" (");
        let counted: String = say_count(name.as_str(), count, ")");
        let mut label: String = if axis == self.active_axis {
            "● ".to_owned()
        } else {
            "○ ".to_owned()
        };
        label.append(counted.as_str());
        (count, label)
    }

    /// How many keyframes are selected.
    pub fn selection_count(&self) -> (count: usize)
        ensures
            count == (if self.timeline.selected_indices.len() > 0 {
                self.timeline.selected_indices.len()
            } else if self.timeline.selected_index is Some {
                1
            } else {
                0
            }),
    {
        let n: usize = self.timeline.selected_indices.len();
        if n > 0 {
            n
        } else if self.timeline.selected_index.is_some() {
            1
        } else {
            0
        }
    }
}

/// The axes that are driven are listed once each, and all of them are.
pub proof fn lemma_driven(editor: &Editor, n: nat)
    requires
        n <= 7,
    ensures
        forall|axis: AxisChannel| #[trigger]
            editor.driven(n).contains(axis) <==> rank(axis) < n && editor.driving(axis).len() > 0,
        editor.driven(n).no_duplicates(),
    decreases n,
{
    lemma_ranks();
    if n > 0 {
        lemma_driven(editor, (n - 1) as nat);
        let head = editor.driven((n - 1) as nat);
        let all = editor.driven(n);
        let last = axis_at(n - 1);
        assert(rank(last) == n - 1);
        assert forall|axis: AxisChannel| #[trigger] all.contains(axis) == (rank(axis) < n
            && editor.driving(axis).len() > 0) by {
            if head.contains(axis) {
                let k = choose|k: int| 0 <= k < head.len() && head[k] == axis;
                assert(all[k] == axis);
            }
            if all.len() > head.len() {
                assert(all[head.len() as int] == last);
            }
            if all.contains(axis) {
                let k = choose|k: int| 0 <= k < all.len() && all[k] == axis;
                if k < head.len() {
                    assert(head[k] == axis);
                }
            }
        }
        assert forall|i: int, j: int| 0 <= i < j < all.len() implies all[i] != all[j] by {
            assert(head.contains(head[i]));
        }
    }
}

/// The label of the button that sets the loop's start.
pub fn loop_in_label(loop_in_ms: Option<i64>) -> (label: String)
    ensures
        label@ == (match loop_in_ms {
            Some(t) => "⟪ In: "@ + decimal_int(t as int) + "ms ([)"@,
            None => "⟪ Set In ([)"@,
        }),
{
    match loop_in_ms {
        Some(t) => {
            let mut label: String = "⟪ In: ".to_owned();
            append_signed(&mut label, t);
            label.append("ms ([)");
            label
        },
        None => "⟪ Set In ([)".to_owned(),
    }
}

/// The label of the button that sets the loop's end.
pub fn loop_out_label(loop_out_ms: Option<i64>) -> (label: String)
    ensures
        label@ == (match loop_out_ms {
            Some(t) => "Out: "@ + decimal_int(t as int) + "ms (]) ⟫"@,
            None => "Set Out (]) ⟫"@,
        }),
{
    match loop_out_ms {
        Some(t) => {
            let mut label: String = "Out: ".to_owned();
            append_signed(&mut label, t);
            label.append("ms (]) ⟫");
            label
        },
        None => "Set Out (]) ⟫".to_owned(),
    }
}

/// What a generator reports. Progress is carried by the bits of its fraction.
#[derive(Debug)]
pub enum WorkerMessage {
    Progress { percent_bits: u32, status: String },
    Done(Result<MultiAxisScript, String>),
}

/// How a generation stands, as the user is shown it.
#[derive(Debug)]
pub struct Generation {
    pub is_generating: bool,
    pub progress_bits: u32,
    pub status: String,
}

/// What the end of a generation leaves to be done.
#[derive(Debug)]
pub enum GenerationEnd {
    /// It goes on
    Running,
    /// The bundle is in the editor: this is to be said, and the studio shown
    Loaded(String),
    Failed,
}

impl Generation {
    /// Begins a generation, where there is a video to make it from.
    pub fn start(&mut self, has_video: bool) -> (begun: bool)
        ensures
            begun == has_video,
            !begun ==> *final(self) == *old(self),
            begun ==> {
                &&& final(self).is_generating
                &&& final(self).progress_bits == 0
                &&& final(self).status@ == "Initializing generator..."@
            },
    {
        if !has_video {
            return false;
        }
        self.is_generating = true;
        self.progress_bits = 0;
        self.status = "Initializing generator...".to_owned();
        true
    }

    /// Takes a report into the scene.
    pub fn apply(&mut self, editor: &mut Editor, message: WorkerMessage) -> (end: GenerationEnd)
        requires
            old(editor).wf(),
        ensures
            final(editor).wf(),
            match message {
                WorkerMessage::Progress { percent_bits, status } => {
                    &&& end is Running
                    &&& *final(editor) == *old(editor)
                    &&& final(self).is_generating == old(self).is_generating
                    &&& final(self).progress_bits == percent_bits
                    &&& final(self).status@ == status@
                },
                WorkerMessage::Done(Ok(bundle)) => {
                    let count = axes_below(bundle@, false, 7).len();
                    &&& !final(self).is_generating
                    &&& final(self).progress_bits == old(self).progress_bits
                    &&& final(self).status@ == counted_text(
                        "Generation Complete! ("@,
                        count,
                        " axes generated)"@,
                    )
                    &&& end matches GenerationEnd::Loaded(said) && said@ == counted_text(
                        "Generated "@,
                        count,
                        " axes! Loaded into Studio Editor."@,
                    )
                    &&& final(editor).active_axis == AxisChannel::Stroke
                    &&& final(editor).multi_axis@ == bundle@
                    &&& final(editor).script@ == (if bundle@.dom().contains(
                        AxisChannel::Stroke,
                    ) {
                        bundle@[AxisChannel::Stroke]
                    } else {
                        old(editor).script@
                    })
                    &&& final(editor).timeline == old(editor).timeline
                    &&& final(editor).history == old(editor).history
                },
                WorkerMessage::Done(Err(error)) => {
                    &&& end is Failed
                    &&& *final(editor) == *old(editor)
                    &&& !final(self).is_generating
                    &&& final(self).progress_bits == old(self).progress_bits
                    &&& final(self).status@ == "Error: "@ + error@
                },
            },
    {
        match message {
            WorkerMessage::Progress { percent_bits, status } => {
                self.progress_bits = percent_bits;
                self.status = status;
                GenerationEnd::Running
            },
            WorkerMessage::Done(result) => {
                self.is_generating = false;
                match result {
                    Ok(bundle) => {
                        let count: usize = editor.take_generated(bundle);
                        self.status = say_count("Generation Complete! (", count, " axes generated)");
                        GenerationEnd::Loaded(
                            say_count("Generated ", count, " axes! Loaded into Studio Editor."),
                        )
                    },
                    Err(error) => {
                        let mut status: String = "Error: ".to_owned();
                        status.append(error.as_str());
                        self.status = status;
                        GenerationEnd::Failed
                    },
                }
            },
        }
    }
}

/// What a headset reports. The speed is carried by the bits of its number.
#[derive(Debug)]
pub enum VrSyncMessage {
    TimeUpdate { timestamp_ms: i64 },
    PlayStateChange { is_playing: bool },
    SpeedChange { speed_bits: u64 },
    VideoPath { path: String },
}

/// What a headset's report leaves to be done.
#[derive(Debug)]
pub enum HeadsetStep {
    Nothing,
    /// The speed is to be set, clamped to what playback takes
    SetSpeed(u64),
    Say(String),
}

/// Takes a headset's report into the scene.
pub fn apply_headset(timeline: &mut TimelineState, is_playing: &mut bool, message: VrSyncMessage)
    -> (step: HeadsetStep)
    requires
        old(timeline).wf(),
    ensures
        final(timeline).wf(),
        match message {
            VrSyncMessage::TimeUpdate { timestamp_ms } => {
                &&& step is Nothing
                &&& *final(is_playing) == *old(is_playing)
                &&& *final(timeline) == (TimelineState {
                    cursor_time_ms: timestamp_ms,
                    ..*old(timeline)
                })
            },
            VrSyncMessage::PlayStateChange { is_playing: playing } => {
                &&& step is Nothing
                &&& *final(is_playing) == playing
                &&& *final(timeline) == *old(timeline)
            },
            VrSyncMessage::SpeedChange { speed_bits } => {
                &&& step == HeadsetStep::SetSpeed(speed_bits)
                &&& *final(is_playing) == *old(is_playing)
                &&& *final(timeline) == *old(timeline)
            },
            VrSyncMessage::VideoPath { path } => {
                &&& step matches HeadsetStep::Say(said) && said@ == "VR Headset requested video: "@
                    + path@
                &&& *final(is_playing) == *old(is_playing)
                &&& *final(timeline) == *old(timeline)
            },
        },
{
    match message {
        VrSyncMessage::TimeUpdate { timestamp_ms } => {
            timeline.cursor_time_ms = timestamp_ms;
            HeadsetStep::Nothing
        },
        VrSyncMessage::PlayStateChange { is_playing: playing } => {
            *is_playing = playing;
            HeadsetStep::Nothing
        },
        VrSyncMessage::SpeedChange { speed_bits } => HeadsetStep::SetSpeed(speed_bits),
        VrSyncMessage::VideoPath { path } => {
            let mut said: String = "VR Headset requested video: ".to_owned();
            said.append(path.as_str());
            HeadsetStep::Say(said)
        },
    }
}

/// What the status line shows.
#[derive(Debug, Clone, Copy, PartialEq, Eq, Structural)]
pub enum StatusLine {
    Generating,
    BatchActive,
    Message,
    ScriptName,
    Nothing,
}

/// How many seconds a message is shown.
pub const MESSAGE_SECONDS: u64 = 6;

/// Decides what the status line shows: work under way before a message, a message
/// before the script's name. A message that has been shown long enough leaves the
/// line empty.
pub fn status_line(
    is_generating: bool,
    batch_active: bool,
    message_age_secs: Option<u64>,
    has_script_path: bool,
) -> (line: StatusLine)
    ensures
        line == (if is_generating {
            StatusLine::Generating
        } else if batch_active {
            StatusLine::BatchActive
        } else {
            match message_age_secs {
                Some(age) => if age < MESSAGE_SECONDS {
                    StatusLine::Message
                } else {
                    StatusLine::Nothing
                },
                None => if has_script_path {
                    StatusLine::ScriptName
                } else {
                    StatusLine::Nothing
                },
            }
        }),
{
    if is_generating {
        return StatusLine::Generating;
    }
    if batch_active {
        return StatusLine::BatchActive;
    }
    match message_age_secs {
        Some(age) => {
            if age < MESSAGE_SECONDS {
                StatusLine::Message
            } else {
                StatusLine::Nothing
            }
        },
        None => {
            if has_script_path {
                StatusLine::ScriptName
            } else {
                StatusLine::Nothing
            }
        },
    }
}

/// When the window is to be drawn again.
#[derive(Debug, Clone, Copy, PartialEq, Eq, Structural)]
pub enum Repaint {
    AtOnce,
    /// After so many milliseconds
    After(u64),
    WhenNeeded,
}

/// Playback is drawn as fast as it can be, work under way thirty times a second.
pub fn repaint_plan(is_playing: bool, is_generating: bool, batch_active: bool) -> (plan: Repaint)
    ensures
        plan == (if is_playing {
            Repaint::AtOnce
        } else if is_generating || batch_active {
            Repaint::After(33)
        } else {
            Repaint::WhenNeeded
        }),
{
    if is_playing {
        Repaint::AtOnce
    } else if is_generating || batch_active {
        Repaint::After(33)
    } else {
        Repaint::WhenNeeded
    }
}

/// The axes shown behind the active one are those of the other axes that have keyframes in
/// the bundle.
pub proof fn lemma_ghosts(editor: &Editor, n: nat, axis: AxisChannel)
    requires
        n <= 7,
    ensures
        editor.ghosts_below(n).contains(axis) <==> rank(axis) < n && axis != editor.active_axis
            && editor.multi_axis@.dom().contains(axis) && editor.multi_axis@[axis].actions.len() > 0,
    decreases n,
{
    lemma_ranks();
    if n > 0 {
        lemma_ghosts(editor, (n - 1) as nat, axis);
        let head = editor.ghosts_below((n - 1) as nat);
        let all = editor.ghosts_below(n);
        let last = axis_at(n - 1);
        assert(rank(last) == n - 1);
        if head.contains(axis) {
            let k = choose|k: int| 0 <= k < head.len() && head[k] == axis;
            assert(all[k] == axis);
        }
        if all.len() > head.len() {
            assert(all[head.len() as int] == last);
        }
        if all.contains(axis) {
            let k = choose|k: int| 0 <= k < all.len() && all[k] == axis;
            if k < head.len() {
                assert(head[k] == axis);
            }
        }
    }
}

/// The active axis is driven by the keyframes being edited, every other by the bundle's, and
/// one that the bundle does not hold by none.
pub proof fn lemma_driving(editor: &Editor, axis: AxisChannel)
    ensures
        axis == editor.active_axis ==> editor.driving(axis) == editor.script.actions@,
        axis != editor.active_axis && editor.multi_axis@.dom().contains(axis) ==> editor.driving(
            axis,
        ) == editor.multi_axis@[axis].actions,
        axis != editor.active_axis && !editor.multi_axis@.dom().contains(axis) ==> editor.driving(
            axis,
        ).len() == 0,
{
}

} // verus!
