//! Generation of scripts from video: the axes that are made, the bundle they
//! form, and what a worker reports.
use crate::axis::{axes_below, empty_script, AxisChannel, MultiAxisScript};
use crate::funscript::{make_script, script_of, Action, FunscriptView};
use crate::text::{append_decimal, decimal};
use vstd::prelude::*;
use vstd::string::*;

verus! {

/// The side of the square frames that are read: larger for a neural model.
pub fn frame_side(has_model: bool) -> (side: u32)
    ensures
        side == if has_model {
            640u32
        } else {
            256u32
        },
{
    if has_model {
        640
    } else {
        256
    }
}

/// Where motion is measured from, seen from the point of view: the middle of the
/// lower edge.
pub fn pov_center(side: u32) -> (center: (u32, u32))
    requires
        side > 0,
    ensures
        center.0 == side / 2,
        center.1 == side - 1,
{
    (side / 2, side - 1)
}

/// A frame after which progress is reported: every thirtieth.
pub fn progress_due(frame_count: u64) -> (due: bool)
    ensures
        due == (frame_count % 30 == 0),
{
    frame_count % 30 == 0
}

/// "Processing frame " with the number.
pub fn progress_status(frame_count: u64) -> (status: String)
    ensures
        status@ == "Processing frame "@ + decimal(frame_count as nat),
{
    let mut status: String = "Processing frame ".to_owned();
    append_decimal(&mut status, frame_count);
    status
}

/// The axes that are made: the stroke alone, or with it those that dense flow
/// shows, or all that poses show.
pub open spec fn generated_axes(from_poses: bool, multi_axis: bool) -> Seq<AxisChannel> {
    if !multi_axis {
        seq![AxisChannel::Stroke]
    } else if from_poses {
        seq![
            AxisChannel::Stroke,
            AxisChannel::Surge,
            AxisChannel::Sway,
            AxisChannel::Pitch,
            AxisChannel::Roll,
            AxisChannel::Twist,
            AxisChannel::Suction,
        ]
    } else {
        seq![
            AxisChannel::Stroke,
            AxisChannel::Surge,
            AxisChannel::Sway,
            AxisChannel::Pitch,
            AxisChannel::Roll,
        ]
    }
}

/// Poses are used where a model was and gave any.
pub fn uses_poses(has_model: bool, pose_count: usize) -> (res: bool)
    ensures
        res == (has_model && pose_count > 0),
{
    has_model && pose_count > 0
}

/// The axes to make.
pub fn list_generated_axes(from_poses: bool, multi_axis: bool) -> (axes: Vec<AxisChannel>)
    ensures
        axes@ == generated_axes(from_poses, multi_axis),
{
    let mut axes: Vec<AxisChannel> = Vec::new();
    axes.push(AxisChannel::Stroke);
    if multi_axis {
        axes.push(AxisChannel::Surge);
        axes.push(AxisChannel::Sway);
        axes.push(AxisChannel::Pitch);
        axes.push(AxisChannel::Roll);
        if from_poses {
            axes.push(AxisChannel::Twist);
            axes.push(AxisChannel::Suction);
        }
    }
    assert(axes@ =~= generated_axes(from_poses, multi_axis));
    axes
}

/// The bundle of the first `n` of the axes, each with the script of its track.
pub open spec fn bundle_of(axes: Seq<AxisChannel>, tracks: Seq<Vec<Action>>, n: nat) -> Map<
    AxisChannel,
    FunscriptView,
>
    decreases n,
{
    if n == 0 {
        Map::empty()
    } else {
        bundle_of(axes, tracks, (n - 1) as nat).insert(axes[n - 1], script_of(tracks[n - 1]@))
    }
}

/// The bundle of the tracks made for the axes, in their order.
pub fn assemble_bundle(from_poses: bool, multi_axis: bool, tracks: Vec<Vec<Action>>) -> (bundle:
    MultiAxisScript)
    requires
        tracks.len() == generated_axes(from_poses, multi_axis).len(),
    ensures
        bundle@ == bundle_of(
            generated_axes(from_poses, multi_axis),
            tracks@,
            generated_axes(from_poses, multi_axis).len(),
        ),
{
    let axes: Vec<AxisChannel> = list_generated_axes(from_poses, multi_axis);
    let ghost all = tracks@;
    let mut rest: Vec<Vec<Action>> = tracks;
    let mut bundle = MultiAxisScript::new();
    let mut i: usize = 0;
    while i < axes.len()
        invariant
            i <= axes.len(),
            axes@ == generated_axes(from_poses, multi_axis),
            axes@[0] == AxisChannel::Stroke,
            all.len() == axes.len(),
            rest@ == all.skip(i as int),
            i == 0 ==> bundle@ == Map::<AxisChannel, FunscriptView>::empty().insert(
                AxisChannel::Stroke,
                empty_script(),
            ),
            i > 0 ==> bundle@ == bundle_of(axes@, all, i as nat),
        decreases axes.len() - i,
    {
        let track: Vec<Action> = rest.remove(0);
        assert(track == all[i as int]);
        assert(rest@ =~= all.skip(i + 1));
        let script = make_script(track);
        bundle.insert(axes[i], script);
        proof {
            reveal_with_fuel(bundle_of, 2);
            assert(bundle@ =~= bundle_of(axes@, all, (i + 1) as nat));
        }
        i += 1;
    }
    bundle
}

/// A generated bundle holds the axes that are made and no others, each with the
/// script of its own track.
pub proof fn lemma_generated_bundle(
    from_poses: bool,
    multi_axis: bool,
    tracks: Seq<Vec<Action>>,
    i: int,
)
    requires
        tracks.len() == generated_axes(from_poses, multi_axis).len(),
        0 <= i < tracks.len(),
    ensures
        ({
            let axes = generated_axes(from_poses, multi_axis);
            let m = bundle_of(axes, tracks, axes.len());
            &&& forall|axis: AxisChannel| #[trigger] m.dom().contains(axis) <==> axes.contains(axis)
            &&& m[axes[i]] == script_of(tracks[i]@)
        }),
{
    let axes = generated_axes(from_poses, multi_axis);
    lemma_bundle_of(axes, tracks, axes.len());
}

proof fn lemma_bundle_of(axes: Seq<AxisChannel>, tracks: Seq<Vec<Action>>, n: nat)
    requires
        axes.no_duplicates(),
        n <= axes.len() == tracks.len(),
    ensures
        ({
            let m = bundle_of(axes, tracks, n);
            &&& forall|axis: AxisChannel| #[trigger]
                m.dom().contains(axis) <==> axes.take(n as int).contains(axis)
            &&& forall|i: int| 0 <= i < n ==> m[#[trigger] axes[i]] == script_of(tracks[i]@)
        }),
        axes.take(axes.len() as int) == axes,
    decreases n,
{
    assert(axes.take(axes.len() as int) =~= axes);
    if n > 0 {
        lemma_bundle_of(axes, tracks, (n - 1) as nat);
        let m = bundle_of(axes, tracks, n);
        let p = axes.take(n - 1);
        let q = axes.take(n as int);
        assert forall|axis: AxisChannel| #[trigger] m.dom().contains(axis) == q.contains(axis) by {
            assert(q[n - 1] == axes[n - 1]);
            if p.contains(axis) {
                let k = choose|k: int| 0 <= k < p.len() && p[k] == axis;
                assert(q[k] == axis);
            }
            if q.contains(axis) {
                let k = choose|k: int| 0 <= k < q.len() && q[k] == axis;
                if k < n - 1 {
                    assert(p[k] == axis);
                }
            }
        }
    }
}

/// How a bundle is saved.
#[derive(Debug, Clone, Copy, PartialEq, Eq, Structural)]
pub enum SavePlan {
    /// Every channel in a file of its own
    Bundle,
    /// The stroke script alone
    Stroke,
}

/// A bundle of several channels made for all axes is saved as such, any other by
/// its stroke script. With it comes the number of the stroke's keyframes.
pub fn plan_save(bundle: &MultiAxisScript, multi_axis: bool) -> (plan: (SavePlan, usize))
    ensures
        plan.0 == (if multi_axis && axes_below(bundle@, false, 7).len() > 1 {
            SavePlan::Bundle
        } else {
            SavePlan::Stroke
        }),
        plan.1 == (if bundle@.dom().contains(AxisChannel::Stroke) {
            bundle@[AxisChannel::Stroke].actions.len()
        } else {
            0
        }),
{
    let axes: Vec<AxisChannel> = bundle.channels();
    let count: usize = match bundle.get(AxisChannel::Stroke) {
        Some(script) => script.actions.len(),
        None => 0,
    };
    if multi_axis && axes.len() > 1 {
        (SavePlan::Bundle, count)
    } else {
        (SavePlan::Stroke, count)
    }
}

/// The stroke is always made, the linear and tilting axes with several axes, and the twist
/// and the suction only where poses show them.
pub proof fn lemma_generated_axes(from_poses: bool, multi_axis: bool, axis: AxisChannel)
    ensures
        generated_axes(from_poses, multi_axis).contains(axis) <==> axis is Stroke || (multi_axis && (
        from_poses || !(axis is Twist || axis is Suction))),
        generated_axes(from_poses, multi_axis).no_duplicates(),
        generated_axes(from_poses, multi_axis)[0] == AxisChannel::Stroke,
{
    let axes = generated_axes(from_poses, multi_axis);
    assert(axes[0] == AxisChannel::Stroke);
    if multi_axis {
        assert(axes[1] == AxisChannel::Surge);
        assert(axes[2] == AxisChannel::Sway);
        assert(axes[3] == AxisChannel::Pitch);
        assert(axes[4] == AxisChannel::Roll);
        if from_poses {
            assert(axes[5] == AxisChannel::Twist);
            assert(axes[6] == AxisChannel::Suction);
        }
    }
}

} // verus!
