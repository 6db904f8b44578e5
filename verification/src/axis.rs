//! Axes of motion, the bundle of scripts that drives them, and the names of
//! the files that a bundle is kept in.
use crate::funscript::{Funscript, FunscriptView};
use crate::paths::{
    dir_part, final_name, is_common_path, is_plain_dir, is_plain_name, is_plain_path, is_plain_text,
    lemma_path_in, lemma_plain_path, name_part, names_of, parts_of, path_file_name, path_in,
    path_parent, PathParts,
};
use crate::text::{
    before_last, has_suffix, last_index_of, lemma_last_index_of, strip_text_suffix, without_last,
};
use vstd::prelude::*;
use vstd::string::*;

verus! {

/// Standard multi-axis haptic channels
#[derive(Debug, Clone, Copy, PartialEq, Eq, Hash, Structural)]
pub enum AxisChannel {
    /// L0 - Primary Up/Down
    Stroke,
    /// L1 - Forward/Backward
    Surge,
    /// L2 - Left/Right
    Sway,
    /// R1 - Tilt Up/Down
    Pitch,
    /// R0 - Tilt Left/Right
    Roll,
    /// R2 - Axial Rotation
    Twist,
    /// V0 - Vacuum / Pressure
    Suction,
}

/// The name of an axis in TCode.
pub open spec fn tcode_name(axis: AxisChannel) -> Seq<char> {
    match axis {
        AxisChannel::Stroke => "L0"@,
        AxisChannel::Surge => "L1"@,
        AxisChannel::Sway => "L2"@,
        AxisChannel::Pitch => "R1"@,
        AxisChannel::Roll => "R0"@,
        AxisChannel::Twist => "R2"@,
        AxisChannel::Suction => "V0"@,
    }
}

/// What an axis is called.
pub open spec fn axis_label(axis: AxisChannel) -> Seq<char> {
    match axis {
        AxisChannel::Stroke => "Stroke (L0)"@,
        AxisChannel::Surge => "Surge (L1)"@,
        AxisChannel::Sway => "Sway (L2)"@,
        AxisChannel::Pitch => "Pitch (R1)"@,
        AxisChannel::Roll => "Roll (R0)"@,
        AxisChannel::Twist => "Twist (R2)"@,
        AxisChannel::Suction => "Suction (V0)"@,
    }
}

/// What a companion file of an axis has between its stem and its extension.
pub open spec fn suffix_of(axis: AxisChannel) -> Seq<char> {
    match axis {
        AxisChannel::Stroke => ""@,
        AxisChannel::Surge => ".surge"@,
        AxisChannel::Sway => ".sway"@,
        AxisChannel::Pitch => ".pitch"@,
        AxisChannel::Roll => ".roll"@,
        AxisChannel::Twist => ".twist"@,
        AxisChannel::Suction => ".suction"@,
    }
}

/// The place of an axis in the listed order.
pub open spec fn rank(axis: AxisChannel) -> int {
    match axis {
        AxisChannel::Stroke => 0,
        AxisChannel::Surge => 1,
        AxisChannel::Sway => 2,
        AxisChannel::Pitch => 3,
        AxisChannel::Roll => 4,
        AxisChannel::Twist => 5,
        AxisChannel::Suction => 6,
    }
}

/// The axis at a place of the listed order.
pub open spec fn axis_at(i: int) -> AxisChannel {
    if i == 0 {
        AxisChannel::Stroke
    } else if i == 1 {
        AxisChannel::Surge
    } else if i == 2 {
        AxisChannel::Sway
    } else if i == 3 {
        AxisChannel::Pitch
    } else if i == 4 {
        AxisChannel::Roll
    } else if i == 5 {
        AxisChannel::Twist
    } else {
        AxisChannel::Suction
    }
}

impl AxisChannel {
    /// Every axis, in the listed order.
    pub const ALL: [AxisChannel; 7] = [
        AxisChannel::Stroke,
        AxisChannel::Surge,
        AxisChannel::Sway,
        AxisChannel::Pitch,
        AxisChannel::Roll,
        AxisChannel::Twist,
        AxisChannel::Suction,
    ];

    /// The place of the axis in the listed order.
    pub fn index(&self) -> (i: usize)
        ensures
            i == rank(*self),
    {
        match self {
            AxisChannel::Stroke => 0,
            AxisChannel::Surge => 1,
            AxisChannel::Sway => 2,
            AxisChannel::Pitch => 3,
            AxisChannel::Roll => 4,
            AxisChannel::Twist => 5,
            AxisChannel::Suction => 6,
        }
    }

    /// The axis at a place of the listed order.
    pub fn from_index(i: usize) -> (axis: AxisChannel)
        requires
            i < 7,
        ensures
            axis == axis_at(i as int),
            rank(axis) == i,
    {
        match i {
            0 => AxisChannel::Stroke,
            1 => AxisChannel::Surge,
            2 => AxisChannel::Sway,
            3 => AxisChannel::Pitch,
            4 => AxisChannel::Roll,
            5 => AxisChannel::Twist,
            _ => AxisChannel::Suction,
        }
    }

    pub fn tcode_axis(&self) -> (name: &'static str)
        ensures
            name@ == tcode_name(*self),
    {
        match self {
            AxisChannel::Stroke => "L0",
            AxisChannel::Surge => "L1",
            AxisChannel::Sway => "L2",
            AxisChannel::Pitch => "R1",
            AxisChannel::Roll => "R0",
            AxisChannel::Twist => "R2",
            AxisChannel::Suction => "V0",
        }
    }

    pub fn file_suffix(&self) -> (suffix: &'static str)
        ensures
            suffix@ == suffix_of(*self),
    {
        match self {
            AxisChannel::Stroke => "",
            AxisChannel::Surge => ".surge",
            AxisChannel::Sway => ".sway",
            AxisChannel::Pitch => ".pitch",
            AxisChannel::Roll => ".roll",
            AxisChannel::Twist => ".twist",
            AxisChannel::Suction => ".suction",
        }
    }

    pub fn display_name(&self) -> (name: &'static str)
        ensures
            name@ == axis_label(*self),
    {
        match self {
            AxisChannel::Stroke => "Stroke (L0)",
            AxisChannel::Surge => "Surge (L1)",
            AxisChannel::Sway => "Sway (L2)",
            AxisChannel::Pitch => "Pitch (R1)",
            AxisChannel::Roll => "Roll (R0)",
            AxisChannel::Twist => "Twist (R2)",
            AxisChannel::Suction => "Suction (V0)",
        }
    }

    pub fn color_rgb(&self) -> (rgb: (u8, u8, u8))
        ensures
            rgb == (match *self {
                AxisChannel::Stroke => (0u8, 200u8, 255u8),
                AxisChannel::Surge => (255u8, 127u8, 80u8),
                AxisChannel::Sway => (186u8, 85u8, 211u8),
                AxisChannel::Pitch => (50u8, 205u8, 50u8),
                AxisChannel::Roll => (255u8, 215u8, 0u8),
                AxisChannel::Twist => (32u8, 178u8, 170u8),
                AxisChannel::Suction => (255u8, 20u8, 147u8),
            }),
    {
        match self {
            AxisChannel::Stroke => (0, 200, 255),  // Bright Cyan
            AxisChannel::Surge => (255, 127, 80),  // Coral
            AxisChannel::Sway => (186, 85, 211),  // Medium Orchid / Purple
            AxisChannel::Pitch => (50, 205, 50),  // Lime Green
            AxisChannel::Roll => (255, 215, 0),  // Gold
            AxisChannel::Twist => (32, 178, 170),  // Light Sea Green
            AxisChannel::Suction => (255, 20, 147),  // Deep Pink
        }
    }
}

/// An empty script of the current version.
pub open spec fn empty_script() -> FunscriptView {
    FunscriptView { version: "1.0"@, actions: Seq::empty(), metadata: None }
}

/// Container managing all multi-axis funscripts for a scene
#[derive(Debug)]
pub struct MultiAxisScript {
    pub stroke: Option<Funscript>,
    pub surge: Option<Funscript>,
    pub sway: Option<Funscript>,
    pub pitch: Option<Funscript>,
    pub roll: Option<Funscript>,
    pub twist: Option<Funscript>,
    pub suction: Option<Funscript>,
}

impl View for MultiAxisScript {
    type V = Map<AxisChannel, FunscriptView>;

    open spec fn view(&self) -> Map<AxisChannel, FunscriptView> {
        Map::new(
            |axis: AxisChannel| self.slot(axis) is Some,
            |axis: AxisChannel| self.slot(axis)->0@,
        )
    }
}

/// The axes of a bundle among the first `n` of the listed order, all of them or
/// those with keyframes.
pub open spec fn axes_below(
    m: Map<AxisChannel, FunscriptView>,
    with_keyframes: bool,
    n: nat,
) -> Seq<AxisChannel>
    decreases n,
{
    if n == 0 {
        Seq::empty()
    } else {
        let head = axes_below(m, with_keyframes, (n - 1) as nat);
        let axis = axis_at(n - 1);
        if m.dom().contains(axis) && (!with_keyframes || m[axis].actions.len() > 0) {
            head.push(axis)
        } else {
            head
        }
    }
}

/// The axes listed are exactly those that the bundle holds, each once.
pub proof fn lemma_axes_listed(m: Map<AxisChannel, FunscriptView>, with_keyframes: bool, n: nat)
    requires
        n <= 7,
    ensures
        forall|axis: AxisChannel| #[trigger]
            axes_below(m, with_keyframes, n).contains(axis) <==> rank(axis) < n
                && m.dom().contains(axis) && (!with_keyframes || m[axis].actions.len() > 0),
        axes_below(m, with_keyframes, n).no_duplicates(),
    decreases n,
{
    lemma_ranks();
    if n > 0 {
        lemma_axes_listed(m, with_keyframes, (n - 1) as nat);
        let head = axes_below(m, with_keyframes, (n - 1) as nat);
        let all = axes_below(m, with_keyframes, n);
        let last = axis_at(n - 1);
        assert(rank(last) == n - 1);
        assert forall|axis: AxisChannel| #[trigger] all.contains(axis) == (rank(axis) < n
            && m.dom().contains(axis) && (!with_keyframes || m[axis].actions.len() > 0)) by {
            if head.contains(axis) {
                let k = choose|k: int| 0 <= k < head.len() && head[k] == axis;
                assert(all[k] == axis);
            }
            if all.len() > head.len() {
                assert(all[head.len() as int] == last);
            }
            if all.contains(axis) {
                let k = choose|k: int| 0 <= k < all.len() && all[k] == axis;
                if k < head.len() {
                    assert(head[k] == axis);
                }
            }
        }
        assert forall|i: int, j: int| 0 <= i < j < all.len() implies all[i] != all[j] by {
            assert(head.contains(head[i]));
        }
    }
}

impl MultiAxisScript {
    /// What the bundle holds for an axis.
    pub open spec fn slot(&self, axis: AxisChannel) -> Option<Funscript> {
        match axis {
            AxisChannel::Stroke => self.stroke,
            AxisChannel::Surge => self.surge,
            AxisChannel::Sway => self.sway,
            AxisChannel::Pitch => self.pitch,
            AxisChannel::Roll => self.roll,
            AxisChannel::Twist => self.twist,
            AxisChannel::Suction => self.suction,
        }
    }

    fn vacant() -> (res: Self)
        ensures
            res@ == Map::<AxisChannel, FunscriptView>::empty(),
    {
        let res = MultiAxisScript {
            stroke: None,
            surge: None,
            sway: None,
            pitch: None,
            roll: None,
            twist: None,
            suction: None,
        };
        assert(res@ =~= Map::<AxisChannel, FunscriptView>::empty());
        res
    }

    fn slot_mut(&mut self, axis: AxisChannel) -> (res: &mut Option<Funscript>)
        ensures
            *res == old(self).slot(axis),
            final(self).slot(axis) == *final(res),
            forall|other: AxisChannel|
                other != axis ==> #[trigger] final(self).slot(other) == old(self).slot(other),
    {
        match axis {
            AxisChannel::Stroke => &mut self.stroke,
            AxisChannel::Surge => &mut self.surge,
            AxisChannel::Sway => &mut self.sway,
            AxisChannel::Pitch => &mut self.pitch,
            AxisChannel::Roll => &mut self.roll,
            AxisChannel::Twist => &mut self.twist,
            AxisChannel::Suction => &mut self.suction,
        }
    }

    /// A bundle with an empty stroke script and nothing else.
    pub fn new() -> (res: Self)
        ensures
            res@ == Map::<AxisChannel, FunscriptView>::empty().insert(
                AxisChannel::Stroke,
                empty_script(),
            ),
    {
        let mut res = MultiAxisScript::vacant();
        res.insert(AxisChannel::Stroke, Funscript::new(Vec::new()));
        res
    }

    /// Puts a script on an axis, in place of what was there.
    pub fn insert(&mut self, axis: AxisChannel, script: Funscript)
        ensures
            final(self)@ == old(self)@.insert(axis, script@),
    {
        let ghost before = self@;
        *self.slot_mut(axis) = Some(script);
        assert(self@ =~= before.insert(axis, script@));
    }

    /// Retrieve or initialize a script channel
    pub fn get_or_create(&mut self, axis: AxisChannel) -> (res: &mut Funscript)
        ensures
            res@ == (if old(self)@.dom().contains(axis) {
                old(self)@[axis]
            } else {
                empty_script()
            }),
            final(self)@ == old(self)@.insert(axis, final(res)@),
    {
        self.slot_mut(axis).get_or_insert(Funscript::new(Vec::new()))
    }

    /// Retrieve an immutable reference to a channel if present
    pub fn get(&self, axis: AxisChannel) -> (res: Option<&Funscript>)
        ensures
            res is Some <==> self@.dom().contains(axis),
            res matches Some(script) ==> script@ == self@[axis],
    {
        match axis {
            AxisChannel::Stroke => self.stroke.as_ref(),
            AxisChannel::Surge => self.surge.as_ref(),
            AxisChannel::Sway => self.sway.as_ref(),
            AxisChannel::Pitch => self.pitch.as_ref(),
            AxisChannel::Roll => self.roll.as_ref(),
            AxisChannel::Twist => self.twist.as_ref(),
            AxisChannel::Suction => self.suction.as_ref(),
        }
    }

    /// The bundle made of the companion files that could be read, given in the
    /// canonical order; an axis whose file was missing or unreadable has `None`.
    /// There is always a stroke script, an empty one where none was read.
    pub fn load_bundle(loaded: Vec<Option<Funscript>>) -> (res: Self)
        requires
            loaded.len() == 7,
        ensures
            res@ == loaded_bundle(loaded@.map_values(|o: Option<Funscript>| script_view(o))),
    {
        let mut res = MultiAxisScript::vacant();
        let mut rest: Vec<Option<Funscript>> = loaded;
        let mut i: usize = 7;
        while i > 0
            invariant
                i <= 7,
                rest.len() == i,
                loaded.len() == 7,
                rest@ == loaded@.take(i as int),
                forall|axis: AxisChannel|
                    #![trigger rank(axis)]
                    (res@.dom().contains(axis) <==> rank(axis) >= i && loaded@[rank(axis)] is Some)
                        && (res@.dom().contains(axis) ==> res@[axis] == loaded@[rank(axis)]->0@),
            decreases i,
        {
            i -= 1;
            let axis: AxisChannel = AxisChannel::from_index(i);
            let entry: Option<Funscript> = rest.pop().unwrap();
            proof {
                lemma_ranks();
                assert(rest@ =~= loaded@.take(i as int));
            }
            if let Some(script) = entry {
                res.insert(axis, script);
            }
        }
        proof {
            lemma_ranks();
            assert(rank(AxisChannel::Stroke) == 0);
        }
        let _ = res.get_or_create(AxisChannel::Stroke);
        proof {
            assert(res@ =~= loaded_bundle(
                loaded@.map_values(|o: Option<Funscript>| script_view(o)),
            ));
        }
        res
    }

    /// The axes that the bundle has a script for, in the listed order.
    pub fn channels(&self) -> (axes: Vec<AxisChannel>)
        ensures
            axes@ == axes_below(self@, false, 7),
    {
        self.list_axes(false)
    }

    /// The axes that the bundle has keyframes for, in the listed order.
    pub fn active_channels(&self) -> (axes: Vec<AxisChannel>)
        ensures
            axes@ == axes_below(self@, true, 7),
    {
        self.list_axes(true)
    }

    fn list_axes(&self, with_keyframes: bool) -> (axes: Vec<AxisChannel>)
        ensures
            axes@ == axes_below(self@, with_keyframes, 7),
    {
        let mut axes: Vec<AxisChannel> = Vec::new();
        let mut i: usize = 0;
        while i < 7
            invariant
                i <= 7,
                axes@ == axes_below(self@, with_keyframes, i as nat),
            decreases 7 - i,
        {
            let axis: AxisChannel = AxisChannel::from_index(i);
            if let Some(script) = self.get(axis) {
                if !with_keyframes || script.actions.len() > 0 {
                    axes.push(axis);
                }
            }
            i += 1;
        }
        axes
    }

    /// The files that the bundle is saved in, in the listed order: the
    /// stroke script always, any other channel unless it is empty.
    pub fn save_bundle(&self, base_stem: &str) -> (files: Vec<(String, Funscript)>)
        ensures
            files_view(files@) == saved_files(self@, base_stem@, 7),
    {
        let mut files: Vec<(String, Funscript)> = Vec::new();
        let mut i: usize = 0;
        assert(files_view(files@) =~= saved_files(self@, base_stem@, 0));
        while i < 7
            invariant
                i <= 7,
                files_view(files@) == saved_files(self@, base_stem@, i as nat),
            decreases 7 - i,
        {
            let axis: AxisChannel = AxisChannel::from_index(i);
            let ghost before = files@;
            if let Some(script) = self.get(axis) {
                if axis == AxisChannel::Stroke || script.actions.len() > 0 {
                    let name: String = companion_name(base_stem, axis);
                    files.push((name, script.clone()));
                    assert(files_view(files@) =~= files_view(before).push(
                        (companion_file(base_stem@, axis), script@),
                    ));
                }
            }
            i += 1;
        }
        files
    }
}

/// The contents of an optional script.
pub open spec fn script_view(script: Option<Funscript>) -> Option<FunscriptView> {
    match script {
        Some(s) => Some(s@),
        None => None,
    }
}

/// The bundle of the scripts that could be read, by the listed order.
pub open spec fn loaded_bundle(loaded: Seq<Option<FunscriptView>>) -> Map<
    AxisChannel,
    FunscriptView,
> {
    Map::new(
        |axis: AxisChannel| loaded[rank(axis)] is Some || axis == AxisChannel::Stroke,
        |axis: AxisChannel|
            match loaded[rank(axis)] {
                Some(script) => script,
                None => empty_script(),
            },
    )
}

/// What a bundle leaves in the file of an axis, if it writes that file.
pub open spec fn saved_script(
    bundle: Map<AxisChannel, FunscriptView>,
    axis: AxisChannel,
) -> Option<FunscriptView> {
    if bundle.dom().contains(axis) && (axis == AxisChannel::Stroke || bundle[axis].actions.len()
        > 0) {
        Some(bundle[axis])
    } else {
        None
    }
}

/// The files written for the first `n` axes: their names and contents.
pub open spec fn saved_files(
    bundle: Map<AxisChannel, FunscriptView>,
    stem: Seq<char>,
    n: nat,
) -> Seq<(Seq<char>, FunscriptView)>
    decreases n,
{
    if n == 0 {
        Seq::empty()
    } else {
        let axis = axis_at(n - 1);
        let earlier = saved_files(bundle, stem, (n - 1) as nat);
        match saved_script(bundle, axis) {
            Some(script) => earlier.push((companion_file(stem, axis), script)),
            None => earlier,
        }
    }
}

/// Names and contents of a list of files.
pub open spec fn files_view(files: Seq<(String, Funscript)>) -> Seq<(Seq<char>, FunscriptView)> {
    files.map_values(|f: (String, Funscript)| (f.0@, f.1@))
}

/// Reading back what a bundle with a stroke script wrote gives the bundle
/// without those of its other channels that are empty.
pub proof fn lemma_bundle_round_trip(bundle: Map<AxisChannel, FunscriptView>)
    requires
        bundle.dom().contains(AxisChannel::Stroke),
    ensures
        loaded_bundle(Seq::new(7, |i: int| saved_script(bundle, axis_at(i)))) == bundle.restrict(
            Set::new(
                |axis: AxisChannel|
                    axis == AxisChannel::Stroke || bundle[axis].actions.len() > 0,
            ),
        ),
{
    lemma_ranks();
    let loaded = Seq::new(7, |i: int| saved_script(bundle, axis_at(i)));
    assert forall|axis: AxisChannel| #[trigger] loaded[rank(axis)] == saved_script(bundle, axis) by {
        assert(0 <= rank(axis) < 7);
    }
    assert(loaded_bundle(loaded) =~= bundle.restrict(
        Set::new(
            |axis: AxisChannel| axis == AxisChannel::Stroke || bundle[axis].actions.len() > 0,
        ),
    ));
}

/// The name of the file that holds an axis of the bundle with this stem.
pub open spec fn companion_file(stem: Seq<char>, axis: AxisChannel) -> Seq<char> {
    stem + suffix_of(axis) + ".funscript"@
}

/// The name of the file that holds an axis of the bundle with this stem.
pub fn companion_name(base_stem: &str, axis: AxisChannel) -> (name: String)
    ensures
        name@ == companion_file(base_stem@, axis),
{
    let mut name: String = base_stem.to_owned();
    name.append(axis.file_suffix());
    name.append(".funscript");
    name
}

/// A file name without its extension: what stands before `.funscript`, else
/// before the last dot, else all of it.
pub open spec fn without_extension(filename: Seq<char>) -> Seq<char> {
    if has_suffix(filename, ".funscript"@) {
        without_last(filename, ".funscript"@.len())
    } else if last_index_of(filename, '.') >= 0 {
        filename.take(last_index_of(filename, '.'))
    } else {
        filename
    }
}

/// The first axis from place `i` on whose suffix is not empty and ends `name`,
/// taken off `name`.
pub open spec fn without_axis_suffix(name: Seq<char>, i: nat) -> Seq<char>
    decreases 7 - i,
{
    if i >= 7 {
        name
    } else {
        let suffix = suffix_of(axis_at(i as int));
        if suffix.len() > 0 && has_suffix(name, suffix) {
            without_last(name, suffix.len())
        } else {
            without_axis_suffix(name, i + 1)
        }
    }
}

/// The stem that the companion files of a file share.
pub open spec fn base_stem(filename: Seq<char>) -> Seq<char> {
    without_axis_suffix(without_extension(filename), 0)
}

/// The stem that the companion files of the file of this name share.
pub fn base_stem_of(filename: &str) -> (stem: String)
    ensures
        stem@ == base_stem(filename@),
{
    let clean: String = match strip_text_suffix(filename, ".funscript") {
        Some(head) => head,
        None => match before_last(filename, '.') {
            Some(head) => head,
            None => filename.to_owned(),
        },
    };
    let mut i: usize = 0;
    while i < 7
        invariant
            i <= 7,
            clean@ == without_extension(filename@),
            without_axis_suffix(clean@, i as nat) == without_axis_suffix(clean@, 0),
        decreases 7 - i,
    {
        let suffix: &str = AxisChannel::from_index(i).file_suffix();
        if !suffix.is_empty() {
            if let Some(stem) = strip_text_suffix(clean.as_str(), suffix) {
                return stem;
            }
        }
        i += 1;
    }
    clean
}

/// The stem of a companion file's name is the stem it was made from. For the
/// stroke file this needs a stem that does not itself end like an axis.
pub proof fn lemma_stem_of_companion(stem: Seq<char>, axis: AxisChannel)
    requires
        axis == AxisChannel::Stroke ==> without_axis_suffix(stem, 0) == stem,
    ensures
        base_stem(companion_file(stem, axis)) == stem,
{
    reveal_strlit("");
    reveal_strlit(".surge");
    reveal_strlit(".sway");
    reveal_strlit(".pitch");
    reveal_strlit(".roll");
    reveal_strlit(".twist");
    reveal_strlit(".suction");
    reveal_strlit(".funscript");
    let name = companion_file(stem, axis);
    let clean = stem + suffix_of(axis);
    assert(name.skip(name.len() - 10) =~= ".funscript"@);
    assert(without_extension(name) =~= clean);
    reveal_with_fuel(without_axis_suffix, 8);
    if axis == AxisChannel::Stroke {
        assert(clean =~= stem);
    } else {
        assert forall|other: AxisChannel|
            other != axis && other != AxisChannel::Stroke implies !#[trigger] has_suffix(
            clean,
            suffix_of(other),
        ) by {
            let n = suffix_of(other).len();
            if has_suffix(clean, suffix_of(other)) {
                assert(clean.skip(clean.len() - n)[n - 1] == suffix_of(other)[n - 1]);
            }
        }
        assert(clean.skip(clean.len() - suffix_of(axis).len()) =~= suffix_of(axis));
        assert(without_last(clean, suffix_of(axis).len()) =~= stem);
        assert(without_axis_suffix(clean, 0) == stem);
    }
}

/// The companion files of a scene all lead back to the directory and the stem that
/// they were named from, so that each of them finds the others. For the stroke file
/// this needs a stem that does not itself end like an axis. A directory that is written
/// plainly comes back as it was written.
pub proof fn lemma_companion_path(dir: Seq<char>, stem: Seq<char>, axis: AxisChannel)
    requires
        is_plain_text(stem),
        is_common_path(path_in(dir, companion_file(stem, axis))),
        axis == AxisChannel::Stroke ==> without_axis_suffix(stem, 0) == stem,
    ensures
        ({
            let path = path_in(dir, companion_file(stem, axis));
            &&& names_of(path) != seq![seq!['.']]
            &&& parts_of(path) == (PathParts {
                names: names_of(dir).push(companion_file(stem, axis)),
                ..parts_of(dir)
            })
            &&& final_name(path) == Some(companion_file(stem, axis))
            &&& base_stem(companion_file(stem, axis)) == stem
            &&& is_plain_dir(dir) || dir == seq!['/'] || dir.len() == 0 ==> is_plain_path(path)
                && dir_part(path) == dir
        }),
{
    let name = companion_file(stem, axis);
    let path = path_in(dir, name);
    lemma_plain_suffix(axis);
    lemma_stem_of_companion(stem, axis);
    assert(is_plain_text(stem + suffix_of(axis)));
    assert(is_plain_text(name));
    assert(name.len() >= 10);
    assert(is_plain_name(name));
    lemma_path_in(dir, name);
    assert(names_of(path).last() == name);
    if is_plain_dir(dir) || dir == seq!['/'] || dir.len() == 0 {
        assert(dir_part(path) =~= dir);
    }
}

proof fn lemma_plain_suffix(axis: AxisChannel)
    ensures
        is_plain_text(suffix_of(axis)),
        is_plain_text(".funscript"@),
        ".funscript"@.len() == 10,
{
    reveal_strlit("");
    reveal_strlit(".surge");
    reveal_strlit(".sway");
    reveal_strlit(".pitch");
    reveal_strlit(".roll");
    reveal_strlit(".twist");
    reveal_strlit(".suction");
    reveal_strlit(".funscript");
}

/// The directory of a path and the stem that its companion files share. The
/// directory is `.` and the name empty where the path has none.
pub fn extract_base_stem(path: &str) -> (res: (String, String))
    ensures
        is_common_path(path@) && names_of(path@) != seq![seq!['.']] ==> res.1@ == base_stem(
            match final_name(path@) {
                Some(name) => name,
                None => Seq::empty(),
            },
        ),
        is_common_path(path@) && names_of(path@).len() > 0 ==> parts_of(res.0@) == (PathParts {
            names: names_of(path@).drop_last(),
            ..parts_of(path@)
        }),
        is_common_path(path@) && names_of(path@).len() == 0 ==> res.0@ == "."@,
        is_plain_path(path@) ==> res.0@ == dir_part(path@) && res.1@ == base_stem(
            name_part(path@),
        ),
        exists|name: Seq<char>| res.1@ == #[trigger] base_stem(name),
{
    proof {
        if is_plain_path(path@) {
            lemma_plain_path(path@);
        }
    }
    let parent: String = match path_parent(path) {
        Some(p) => p,
        None => ".".to_owned(),
    };
    let filename: String = match path_file_name(path) {
        Some(name) => name,
        None => String::new(),
    };
    (parent, base_stem_of(filename.as_str()))
}

/// Different axes stand at different places.
pub proof fn lemma_ranks()
    ensures
        forall|a: AxisChannel, b: AxisChannel|
            #[trigger] rank(a) == #[trigger] rank(b) ==> a == b,
        forall|a: AxisChannel| 0 <= #[trigger] rank(a) < 7 && axis_at(rank(a)) == a,
{
}

/// A bundle writes the stroke script, and every other one with keyframes, to the file named
/// after its axis: none is missed.
pub proof fn lemma_axis_saved(
    bundle: Map<AxisChannel, FunscriptView>,
    stem: Seq<char>,
    n: nat,
    axis: AxisChannel,
)
    requires
        rank(axis) < n <= 7,
        bundle.dom().contains(axis),
        axis == AxisChannel::Stroke || bundle[axis].actions.len() > 0,
    ensures
        saved_files(bundle, stem, n).contains(
            (stem + suffix_of(axis) + ".funscript"@, bundle[axis]),
        ),
    decreases n,
{
    lemma_ranks();
    let all = saved_files(bundle, stem, n);
    let earlier = saved_files(bundle, stem, (n - 1) as nat);
    let file = (stem + suffix_of(axis) + ".funscript"@, bundle[axis]);
    if rank(axis) == n - 1 {
        assert(axis_at(n - 1) == axis);
        assert(all[earlier.len() as int] == file);
    } else {
        lemma_axis_saved(bundle, stem, (n - 1) as nat, axis);
        let k = choose|k: int| 0 <= k < earlier.len() && earlier[k] == file;
        assert(all[k] == file);
    }
}

/// A bundle writes nothing else: each file is that of an axis it holds, the stroke or one
/// with keyframes. The axis is returned.
pub proof fn lemma_file_of_axis(
    bundle: Map<AxisChannel, FunscriptView>,
    stem: Seq<char>,
    n: nat,
    k: int,
) -> (axis: AxisChannel)
    requires
        n <= 7,
        0 <= k < saved_files(bundle, stem, n).len(),
    ensures
        bundle.dom().contains(axis),
        axis == AxisChannel::Stroke || bundle[axis].actions.len() > 0,
        saved_files(bundle, stem, n)[k].0 == stem + suffix_of(axis) + ".funscript"@,
        saved_files(bundle, stem, n)[k].1 == bundle[axis],
    decreases n,
{
    let earlier = saved_files(bundle, stem, (n - 1) as nat);
    if k < earlier.len() {
        lemma_file_of_axis(bundle, stem, (n - 1) as nat, k)
    } else {
        axis_at(n - 1)
    }
}

/// Each axis has a file of its own.
pub proof fn lemma_files_differ(stem: Seq<char>, a: AxisChannel, b: AxisChannel)
    requires
        a != b,
    ensures
        companion_file(stem, a) != companion_file(stem, b),
{
    reveal_strlit("");
    reveal_strlit(".surge");
    reveal_strlit(".sway");
    reveal_strlit(".pitch");
    reveal_strlit(".roll");
    reveal_strlit(".twist");
    reveal_strlit(".suction");
    reveal_strlit(".funscript");
    let x = companion_file(stem, a);
    let y = companion_file(stem, b);
    assert(x.len() == stem.len() + suffix_of(a).len() + 10);
    assert(y.len() == stem.len() + suffix_of(b).len() + 10);
    if x == y {
        assert(suffix_of(a).len() == suffix_of(b).len());
        assert(x.subrange(stem.len() as int, (stem.len() + suffix_of(a).len()) as int)
            =~= suffix_of(a));
        assert(y.subrange(stem.len() as int, (stem.len() + suffix_of(b).len()) as int)
            =~= suffix_of(b));
        assert(suffix_of(a) == suffix_of(b));
        assert(suffix_of(a).len() > 2 ==> suffix_of(a)[2] == suffix_of(b)[2]);
    }
}

/// A bundle that is read holds every script that could be read, each under its axis, and a
/// stroke script in any case: an empty one where it could not be read.
pub proof fn lemma_axis_loaded(loaded: Seq<Option<FunscriptView>>, i: int)
    requires
        loaded.len() == 7,
        0 <= i < 7,
    ensures
        loaded[i] matches Some(script) ==> loaded_bundle(loaded).dom().contains(axis_at(i))
            && loaded_bundle(loaded)[axis_at(i)] == script,
        loaded[i] is None && i > 0 ==> !loaded_bundle(loaded).dom().contains(axis_at(i)),
        loaded_bundle(loaded).dom().contains(AxisChannel::Stroke),
        loaded[0] is None ==> loaded_bundle(loaded)[AxisChannel::Stroke].actions.len() == 0,
{
    lemma_ranks();
}

/// The stem of any other file is what stands before its last dot, where that does not itself
/// end like an axis.
pub proof fn lemma_stem_of_other_file(stem: Seq<char>, extension: Seq<char>)
    requires
        without_axis_suffix(stem, 0) == stem,
        !extension.contains('.'),
    ensures
        base_stem(stem + seq!['.'] + extension) == stem,
{
    reveal_strlit(".funscript");
    let name = stem + seq!['.'] + extension;
    let at = stem.len() as int;
    assert(name[at] == '.');
    lemma_last_index_of(name, '.');
    assert forall|k: int| at < k < name.len() implies name[k] != '.' by {
        assert(name[k] == extension[k - at - 1]);
        assert(extension.contains(extension[k - at - 1]));
    }
    assert(last_index_of(name, '.') == at);
    if has_suffix(name, ".funscript"@) {
        let tail = name.skip(name.len() - 10);
        assert(tail[0] == '.');
        assert(name[name.len() - 10] == '.');
        assert forall|j: int| 0 < j < 10 implies #[trigger] tail[j] != '.' by {}
        if name.len() - 10 < at {
            assert(tail[at - (name.len() - 10)] == '.');
        }
        assert(name.len() - 10 == at);
        assert(without_last(name, 10) =~= stem);
    } else {
        assert(name.take(at) =~= stem);
    }
}

} // verus!
