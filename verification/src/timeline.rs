//! State of the timeline: the selection, the loop, bookmarks, and time stamps as text.
use crate::text::{
    append_padded_signed, decimal, lemma_padded_reads_back, numeral_value, padded_int, zero_padded,
};
use vstd::prelude::*;
use vstd::string::*;

verus! {

/// Audio visualization mode on the timeline canvas
#[derive(Debug, Clone, Copy, PartialEq, Eq, Structural)]
pub enum AudioVizMode {
    /// Standard Cyan RMS envelope
    Waveform,
    /// Tri-color stacked bands: Sub-Bass (Magenta), Mid (Cyan), High (Amber)
    MultiBand,
    /// 16-band heat-map waterfall spectrogram (Inferno palette)
    Spectrogram,
}

impl Default for AudioVizMode {
    fn default() -> (res: Self)
        ensures
            res == AudioVizMode::Waveform,
    {
        AudioVizMode::Waveform
    }
}

impl AudioVizMode {
    pub const ALL: [AudioVizMode; 3] = [
        AudioVizMode::Waveform,
        AudioVizMode::MultiBand,
        AudioVizMode::Spectrogram,
    ];

    pub fn display_name(&self) -> (name: &'static str)
        ensures
            name@ == (match *self {
                AudioVizMode::Waveform => "Waveform (RMS)"@,
                AudioVizMode::MultiBand => "Multi-Band Split"@,
                AudioVizMode::Spectrogram => "Waterfall Spectrogram"@,
            }),
    {
        match self {
            AudioVizMode::Waveform => "Waveform (RMS)",
            AudioVizMode::MultiBand => "Multi-Band Split",
            AudioVizMode::Spectrogram => "Waterfall Spectrogram",
        }
    }

    pub fn icon(&self) -> (icon: &'static str)
        ensures
            icon@ == (match *self {
                AudioVizMode::Waveform => "🎵"@,
                AudioVizMode::MultiBand => "🌈"@,
                AudioVizMode::Spectrogram => "⚡"@,
            }),
    {
        match self {
            AudioVizMode::Waveform => "🎵",
            AudioVizMode::MultiBand => "🌈",
            AudioVizMode::Spectrogram => "⚡",
        }
    }

    /// The mode that follows when the modes are cycled through.
    pub open spec fn following(self) -> AudioVizMode {
        match self {
            AudioVizMode::Waveform => AudioVizMode::MultiBand,
            AudioVizMode::MultiBand => AudioVizMode::Spectrogram,
            AudioVizMode::Spectrogram => AudioVizMode::Waveform,
        }
    }
}

/// Cycling through the modes comes back after three steps, and not before.
pub proof fn lemma_viz_cycle(mode: AudioVizMode)
    ensures
        mode.following().following().following() == mode,
        mode.following() != mode,
        mode.following().following() != mode,
{
}

/// Scene or chapter bookmark timestamp with a descriptive label.
#[derive(Debug, PartialEq)]
pub struct Bookmark {
    pub time_ms: i64,
    pub name: String,
}

/// The time and the label of a bookmark.
pub open spec fn bookmark_view(b: Bookmark) -> (i64, Seq<char>) {
    (b.time_ms, b.name@)
}

/// Times and labels of a list of bookmarks.
pub open spec fn bookmark_views(s: Seq<Bookmark>) -> Seq<(i64, Seq<char>)> {
    s.map_values(|b: Bookmark| bookmark_view(b))
}

/// Entries strictly increase along the list.
pub open spec fn increasing(s: Seq<usize>) -> bool {
    forall|i: int, j: int| 0 <= i < j < s.len() ==> s[i] < s[j]
}

/// Bookmarks strictly increase in time.
pub open spec fn bookmarks_ordered(s: Seq<Bookmark>) -> bool {
    forall|i: int, j: int| 0 <= i < j < s.len() ==> s[i].time_ms < s[j].time_ms
}

/// An increasing list is determined by its entries.
pub proof fn lemma_increasing_unique(a: Seq<usize>, b: Seq<usize>)
    requires
        increasing(a),
        increasing(b),
        forall|x: usize| a.contains(x) <==> b.contains(x),
    ensures
        a == b,
    decreases a.len(),
{
    if a.len() == 0 {
        if b.len() > 0 {
            assert(b.contains(b[0]));
        }
        assert(a =~= b);
    } else {
        assert(a.contains(a[a.len() - 1]));
        assert(b.contains(a[a.len() - 1]));
        let k = choose|k: int| 0 <= k < b.len() && b[k] == a[a.len() - 1];
        assert(b.contains(b[b.len() - 1]));
        assert(a.contains(b[b.len() - 1]));
        let m = choose|m: int| 0 <= m < a.len() && a[m] == b[b.len() - 1];
        assert(a.last() == b.last()) by {
            if k < b.len() - 1 {
                assert(b[k] < b[b.len() - 1]);
                assert(m <= a.len() - 1);
                if m < a.len() - 1 {
                    assert(a[m] < a[a.len() - 1]);
                }
            }
        }
        let p = a.drop_last();
        let q = b.drop_last();
        assert forall|x: usize| p.contains(x) <==> q.contains(x) by {
            if p.contains(x) {
                let i = choose|i: int| 0 <= i < p.len() && p[i] == x;
                assert(a[i] == x);
                assert(a.contains(x));
                assert(b.contains(x));
                assert(a[i] < a[a.len() - 1]);
                let j = choose|j: int| 0 <= j < b.len() && b[j] == x;
                assert(q[j] == x);
            }
            if q.contains(x) {
                let j = choose|j: int| 0 <= j < q.len() && q[j] == x;
                assert(b[j] == x);
                assert(b.contains(x));
                assert(a.contains(x));
                assert(b[j] < b[b.len() - 1]);
                let i = choose|i: int| 0 <= i < a.len() && a[i] == x;
                assert(p[i] == x);
            }
        }
        lemma_increasing_unique(p, q);
        assert(a =~= p.push(a.last()));
        assert(b =~= q.push(b.last()));
    }
}

/// The first place of an increasing list that holds at least `idx`.
pub fn place_of(s: &Vec<usize>, idx: usize) -> (pos: usize)
    requires
        increasing(s@),
    ensures
        pos <= s.len(),
        forall|i: int| 0 <= i < pos ==> (#[trigger] s@[i]) < idx,
        forall|i: int| pos <= i < s.len() ==> (#[trigger] s@[i]) >= idx,
        s@.contains(idx) <==> pos < s.len() && s@[pos as int] == idx,
{
    let mut lo: usize = 0;
    let mut hi: usize = s.len();
    while lo < hi
        invariant
            lo <= hi <= s.len(),
            increasing(s@),
            forall|i: int| 0 <= i < lo ==> (#[trigger] s@[i]) < idx,
            forall|i: int| hi <= i < s.len() ==> (#[trigger] s@[i]) >= idx,
        decreases hi - lo,
    {
        let mid: usize = lo + (hi - lo) / 2;
        if s[mid] < idx {
            assert forall|i: int| 0 <= i < mid + 1 implies (#[trigger] s@[i]) < idx by {
                if i < mid {
                    assert(s@[i] < s@[mid as int]);
                }
            }
            lo = mid + 1;
        } else {
            assert forall|i: int| mid <= i < s.len() implies (#[trigger] s@[i]) >= idx by {
                if i > mid {
                    assert(s@[mid as int] < s@[i]);
                }
            }
            hi = mid;
        }
    }
    proof {
        if s@.contains(idx) {
            let k = choose|k: int| 0 <= k < s@.len() && s@[k] == idx;
            assert(k >= lo);
            if k > lo {
                assert(s@[lo as int] < s@[k]);
            }
        }
    }
    lo
}

/// Puts `idx` into an increasing list.
pub fn insert_index(s: &mut Vec<usize>, idx: usize)
    requires
        increasing(old(s)@),
    ensures
        increasing(final(s)@),
        forall|x: usize| #[trigger] final(s)@.contains(x) <==> old(s)@.contains(x) || x == idx,
{
    let pos: usize = place_of(s, idx);
    if pos < s.len() && s[pos] == idx {
        return;
    }
    let ghost before = s@;
    s.insert(pos, idx);
    proof {
        let after = s@;
        assert forall|i: int, j: int| 0 <= i < j < after.len() implies after[i] < after[j] by {
            if j < pos {
                assert(before[i] < before[j]);
            } else if j == pos {
                assert(before[i] < idx);
            } else if i < pos {
                assert(before[i] < before[j - 1]);
            } else if i == pos {
                assert(before[j - 1] >= idx);
                if j - 1 > pos {
                    assert(before[pos as int] < before[j - 1]);
                }
            } else {
                assert(before[i - 1] < before[j - 1]);
            }
        }
        assert forall|x: usize| #[trigger] after.contains(x) <==> before.contains(x) || x == idx by {
            if after.contains(x) {
                let i = choose|i: int| 0 <= i < after.len() && after[i] == x;
                if i < pos {
                    assert(before[i] == x);
                } else if i > pos {
                    assert(before[i - 1] == x);
                }
            }
            if before.contains(x) {
                let i = choose|i: int| 0 <= i < before.len() && before[i] == x;
                if i < pos {
                    assert(after[i] == x);
                } else {
                    assert(after[i + 1] == x);
                }
            }
            assert(after[pos as int] == idx);
        }
    }
}

/// Takes `idx` out of an increasing list.
pub fn remove_index(s: &mut Vec<usize>, idx: usize)
    requires
        increasing(old(s)@),
    ensures
        increasing(final(s)@),
        forall|x: usize| #[trigger] final(s)@.contains(x) <==> old(s)@.contains(x) && x != idx,
{
    let pos: usize = place_of(s, idx);
    let ghost before = s@;
    if pos < s.len() && s[pos] == idx {
        let _ = s.remove(pos);
        proof {
            let after = s@;
            assert forall|x: usize| #[trigger] after.contains(x) <==> before.contains(x) && x
                != idx by {
                if after.contains(x) {
                    let i = choose|i: int| 0 <= i < after.len() && after[i] == x;
                    if i < pos {
                        assert(before[i] == x);
                    } else {
                        assert(before[i + 1] == x);
                        assert(before[pos as int] < before[i + 1]);
                    }
                }
                if before.contains(x) && x != idx {
                    let i = choose|i: int| 0 <= i < before.len() && before[i] == x;
                    if i < pos {
                        assert(after[i] == x);
                    } else {
                        assert(after[i - 1] == x);
                    }
                }
            }
        }
    }
}

/// The timeline: playhead, selection, loop, bookmarks and display modes.
#[derive(Debug)]
pub struct TimelineState {
    /// Current playhead position in milliseconds
    pub cursor_time_ms: i64,
    /// Index of primary / lead selected keyframe action
    pub selected_index: Option<usize>,
    /// All selected keyframe action indices (multi-selection), in order
    pub selected_indices: Vec<usize>,
    /// Whether a marquee selection box is being dragged
    pub marquee_active: bool,
    /// Whether a keyframe point is actively being dragged
    pub is_dragging_point: bool,
    /// Whether magnetic snapping to audio waveform transients is enabled
    pub magnetic_snapping: bool,
    /// Currently snapped acoustic transient timestamp (if active)
    pub snapped_transient_ms: Option<i64>,
    /// A/B Loop In point in milliseconds
    pub loop_in_ms: Option<i64>,
    /// A/B Loop Out point in milliseconds
    pub loop_out_ms: Option<i64>,
    /// Whether A/B looping is active
    pub loop_enabled: bool,
    /// Scene / chapter bookmarks
    pub bookmarks: Vec<Bookmark>,
    /// Audio visualization mode on the timeline canvas
    pub audio_viz_mode: AudioVizMode,
}

/// The first entry of a list.
pub open spec fn first_of(s: Seq<usize>) -> Option<usize> {
    if s.len() > 0 {
        Some(s[0])
    } else {
        None
    }
}

/// The first entry of a list.
pub fn first_index(s: &Vec<usize>) -> (res: Option<usize>)
    ensures
        res == first_of(s@),
{
    if s.len() > 0 {
        Some(s[0])
    } else {
        None
    }
}

/// The numbers below `n`.
pub open spec fn indices_below(n: nat) -> Seq<usize> {
    Seq::new(n, |i: int| i as usize)
}

/// The list holds exactly the numbers below `n`.
pub proof fn lemma_indices_below(n: nat)
    requires
        n <= usize::MAX + 1,
    ensures
        increasing(indices_below(n)),
        forall|x: usize| #[trigger] indices_below(n).contains(x) <==> x < n,
{
    let s = indices_below(n);
    assert forall|x: usize| #[trigger] s.contains(x) <==> x < n by {
        if x < n {
            assert(s[x as int] == x);
        }
    }
}

/// The numbers below `n`, in order.
pub fn all_indices(n: usize) -> (res: Vec<usize>)
    ensures
        res@ == indices_below(n as nat),
        increasing(res@),
{
    let mut res: Vec<usize> = Vec::new();
    let mut i: usize = 0;
    while i < n
        invariant
            i <= n,
            res@ == indices_below(i as nat),
        decreases n - i,
    {
        res.push(i);
        i += 1;
        assert(res@ =~= indices_below(i as nat));
    }
    res
}

impl Default for TimelineState {
    fn default() -> (res: Self)
        ensures
            res.wf(),
            res.is_fresh(),
    {
        TimelineState {
            cursor_time_ms: 0,
            selected_index: None,
            selected_indices: Vec::new(),
            marquee_active: false,
            is_dragging_point: false,
            magnetic_snapping: true,
            snapped_transient_ms: None,
            loop_in_ms: None,
            loop_out_ms: None,
            loop_enabled: false,
            bookmarks: Vec::new(),
            audio_viz_mode: AudioVizMode::default(),
        }
    }
}

impl TimelineState {
    /// The selection is listed in order, and so are the bookmarks.
    pub open spec fn wf(&self) -> bool {
        &&& increasing(self.selected_indices@)
        &&& bookmarks_ordered(self.bookmarks@)
    }

    /// The playhead is at the start, and nothing is selected, looped or bookmarked.
    pub open spec fn is_fresh(&self) -> bool {
        &&& self.cursor_time_ms == 0
        &&& self.selected_index is None
        &&& self.selected_indices.len() == 0
        &&& !self.marquee_active
        &&& !self.is_dragging_point
        &&& self.magnetic_snapping
        &&& self.snapped_transient_ms is None
        &&& self.loop_in_ms is None
        &&& self.loop_out_ms is None
        &&& !self.loop_enabled
        &&& self.bookmarks.len() == 0
        &&& self.audio_viz_mode == AudioVizMode::Waveform
    }

    /// Everything but the selection is as in another state.
    pub open spec fn same_but_selection(&self, other: &TimelineState) -> bool {
        &&& self.cursor_time_ms == other.cursor_time_ms
        &&& self.is_dragging_point == other.is_dragging_point
        &&& self.magnetic_snapping == other.magnetic_snapping
        &&& self.snapped_transient_ms == other.snapped_transient_ms
        &&& self.loop_in_ms == other.loop_in_ms
        &&& self.loop_out_ms == other.loop_out_ms
        &&& self.loop_enabled == other.loop_enabled
        &&& self.bookmarks == other.bookmarks
        &&& self.audio_viz_mode == other.audio_viz_mode
    }

    pub fn select_single(&mut self, idx: usize)
        requires
            old(self).wf(),
        ensures
            final(self).wf(),
            final(self).same_but_selection(&*old(self)),
            final(self).marquee_active == old(self).marquee_active,
            final(self).selected_index == Some(idx),
            final(self).selected_indices@ == seq![idx],
    {
        self.selected_index = Some(idx);
        self.selected_indices.clear();
        self.selected_indices.push(idx);
        assert(self.selected_indices@ =~= seq![idx]);
    }

    pub fn toggle_selection(&mut self, idx: usize)
        requires
            old(self).wf(),
        ensures
            final(self).wf(),
            final(self).same_but_selection(&*old(self)),
            final(self).marquee_active == old(self).marquee_active,
            forall|x: usize| #[trigger]
                final(self).selected_indices@.contains(x) <==> if x == idx {
                    !old(self).selected_indices@.contains(x)
                } else {
                    old(self).selected_indices@.contains(x)
                },
            final(self).selected_index == (if !old(self).selected_indices@.contains(idx) {
                Some(idx)
            } else if old(self).selected_index == Some(idx) {
                first_of(final(self).selected_indices@)
            } else {
                old(self).selected_index
            }),
    {
        let pos: usize = place_of(&self.selected_indices, idx);
        if pos < self.selected_indices.len() && self.selected_indices[pos] == idx {
            remove_index(&mut self.selected_indices, idx);
            if self.selected_index == Some(idx) {
                self.selected_index = first_index(&self.selected_indices);
            }
        } else {
            insert_index(&mut self.selected_indices, idx);
            self.selected_index = Some(idx);
        }
    }

    pub fn clear_selection(&mut self)
        requires
            old(self).wf(),
        ensures
            final(self).wf(),
            final(self).same_but_selection(&*old(self)),
            !final(self).marquee_active,
            final(self).selected_index is None,
            final(self).selected_indices@ == Seq::<usize>::empty(),
    {
        self.selected_index = None;
        self.selected_indices.clear();
        self.marquee_active = false;
    }

    pub fn select_all(&mut self, total_count: usize)
        requires
            old(self).wf(),
        ensures
            final(self).wf(),
            final(self).same_but_selection(&*old(self)),
            final(self).marquee_active == old(self).marquee_active,
            final(self).selected_indices@ == indices_below(total_count as nat),
            final(self).selected_index == (if total_count > 0 {
                Some(0usize)
            } else {
                None
            }),
    {
        self.selected_indices = all_indices(total_count);
        self.selected_index = first_index(&self.selected_indices);
    }

    pub fn is_selected(&self, idx: usize) -> (res: bool)
        requires
            self.wf(),
        ensures
            res == (self.selected_indices@.contains(idx) || self.selected_index == Some(idx)),
    {
        let pos: usize = place_of(&self.selected_indices, idx);
        (pos < self.selected_indices.len() && self.selected_indices[pos] == idx)
            || self.selected_index == Some(idx)
    }

    /// Set A/B loop In point
    pub fn set_loop_in(&mut self, time_ms: i64)
        requires
            old(self).wf(),
            old(self).loop_out_ms matches Some(out) && time_ms >= out ==> time_ms + 1000
                <= i64::MAX,
        ensures
            final(self).wf(),
            *final(self) == (TimelineState {
                loop_in_ms: Some(time_ms),
                loop_out_ms: match old(self).loop_out_ms {
                    Some(out) if time_ms >= out => Some((time_ms + 1000) as i64),
                    other => other,
                },
                loop_enabled: true,
                ..*old(self)
            }),
            final(self).loop_out_ms matches Some(out) ==> time_ms < out,
    {
        self.loop_in_ms = Some(time_ms);
        if let Some(out) = self.loop_out_ms {
            if time_ms >= out {
                self.loop_out_ms = Some(time_ms + 1000);
            }
        }
        self.loop_enabled = true;
    }

    /// Set A/B loop Out point
    pub fn set_loop_out(&mut self, time_ms: i64)
        requires
            old(self).wf(),
        ensures
            final(self).wf(),
            *final(self) == (TimelineState {
                loop_in_ms: match old(self).loop_in_ms {
                    Some(in_t) if time_ms <= in_t => Some(
                        if time_ms - 1000 < i64::MIN {
                            i64::MIN
                        } else {
                            (time_ms - 1000) as i64
                        },
                    ),
                    other => other,
                },
                loop_out_ms: Some(time_ms),
                loop_enabled: true,
                ..*old(self)
            }),
            time_ms > i64::MIN ==> (final(self).loop_in_ms matches Some(in_t) ==> in_t < time_ms),
    {
        self.loop_out_ms = Some(time_ms);
        if let Some(in_t) = self.loop_in_ms {
            if time_ms <= in_t {
                let earlier: i64 = if time_ms < i64::MIN + 1000 {
                    i64::MIN
                } else {
                    time_ms - 1000
                };
                self.loop_in_ms = Some(earlier);
            }
        }
        self.loop_enabled = true;
    }

    /// Clear A/B loop region
    pub fn clear_loop(&mut self)
        requires
            old(self).wf(),
        ensures
            final(self).wf(),
            *final(self) == (TimelineState {
                loop_in_ms: None,
                loop_out_ms: None,
                loop_enabled: false,
                ..*old(self)
            }),
    {
        self.loop_in_ms = None;
        self.loop_out_ms = None;
        self.loop_enabled = false;
    }

    /// Add a bookmark at the given timestamp; one that is there already stays.
    pub fn add_bookmark(&mut self, time_ms: i64, name: String)
        requires
            old(self).wf(),
        ensures
            final(self).wf(),
            bookmark_views(final(self).bookmarks@) == bookmarked(
                bookmark_views(old(self).bookmarks@),
                (time_ms, name@),
            ),
            *final(self) == (TimelineState { bookmarks: final(self).bookmarks, ..*old(self) }),
    {
        let mut pos: usize = 0;
        while pos < self.bookmarks.len() && self.bookmarks[pos].time_ms < time_ms
            invariant
                pos <= self.bookmarks.len(),
                forall|i: int| 0 <= i < pos ==> (#[trigger] self.bookmarks@[i]).time_ms < time_ms,
            decreases self.bookmarks.len() - pos,
        {
            pos += 1;
        }
        let ghost before = self.bookmarks@;
        proof {
            assert forall|i: int| pos < i < before.len() implies (#[trigger] before[i]).time_ms
                > time_ms by {
                assert(before[pos as int].time_ms < before[i].time_ms);
            }
            lemma_bookmarked(bookmark_views(before), (time_ms, name@), pos as int);
        }
        if pos < self.bookmarks.len() && self.bookmarks[pos].time_ms == time_ms {
            return;
        }
        self.bookmarks.insert(pos, Bookmark { time_ms, name });
        assert(bookmark_views(self.bookmarks@) =~= bookmark_views(before).insert(
            pos as int,
            (time_ms, name@),
        ));
    }

    /// Jump to the next bookmark after current playhead
    pub fn next_bookmark(&self, cur_time: i64) -> (res: Option<i64>)
        requires
            self.wf(),
        ensures
            match res {
                Some(t) => is_next_bookmark(self.bookmarks@, cur_time, t),
                None => forall|i: int|
                    0 <= i < self.bookmarks.len() ==> (#[trigger] self.bookmarks@[i]).time_ms
                        <= cur_time,
            },
    {
        let mut i: usize = 0;
        while i < self.bookmarks.len()
            invariant
                i <= self.bookmarks.len(),
                self.wf(),
                forall|k: int| 0 <= k < i ==> (#[trigger] self.bookmarks@[k]).time_ms <= cur_time,
            decreases self.bookmarks.len() - i,
        {
            if self.bookmarks[i].time_ms > cur_time {
                assert forall|k: int|
                    0 <= k < self.bookmarks.len() && (#[trigger] self.bookmarks@[k]).time_ms
                        > cur_time implies self.bookmarks@[i as int].time_ms
                    <= self.bookmarks@[k].time_ms by {
                    if k > i {
                        assert(self.bookmarks@[i as int].time_ms < self.bookmarks@[k].time_ms);
                    }
                }
                return Some(self.bookmarks[i].time_ms);
            }
            i += 1;
        }
        None
    }

    /// Jump to the previous bookmark before current playhead
    pub fn prev_bookmark(&self, cur_time: i64) -> (res: Option<i64>)
        requires
            self.wf(),
        ensures
            match res {
                Some(t) => is_prev_bookmark(self.bookmarks@, cur_time, t),
                None => forall|i: int|
                    0 <= i < self.bookmarks.len() ==> (#[trigger] self.bookmarks@[i]).time_ms
                        >= cur_time,
            },
    {
        let mut i: usize = self.bookmarks.len();
        while i > 0
            invariant
                i <= self.bookmarks.len(),
                self.wf(),
                forall|k: int|
                    i <= k < self.bookmarks.len() ==> (#[trigger] self.bookmarks@[k]).time_ms
                        >= cur_time,
            decreases i,
        {
            if self.bookmarks[i - 1].time_ms < cur_time {
                assert forall|k: int|
                    0 <= k < self.bookmarks.len() && (#[trigger] self.bookmarks@[k]).time_ms
                        < cur_time implies self.bookmarks@[i - 1].time_ms
                    >= self.bookmarks@[k].time_ms by {
                    if k < i - 1 {
                        assert(self.bookmarks@[k].time_ms < self.bookmarks@[i - 1].time_ms);
                    }
                }
                return Some(self.bookmarks[i - 1].time_ms);
            }
            i -= 1;
        }
        None
    }

    /// Cycle between Waveform, Multi-Band, and Waterfall Spectrogram visual modes
    pub fn cycle_audio_viz_mode(&mut self)
        requires
            old(self).wf(),
        ensures
            final(self).wf(),
            *final(self) == (TimelineState {
                audio_viz_mode: old(self).audio_viz_mode.following(),
                ..*old(self)
            }),
    {
        self.audio_viz_mode = match self.audio_viz_mode {
            AudioVizMode::Waveform => AudioVizMode::MultiBand,
            AudioVizMode::MultiBand => AudioVizMode::Spectrogram,
            AudioVizMode::Spectrogram => AudioVizMode::Waveform,
        };
    }
}

/// `t` is the time of the first bookmark after `cur`.
pub open spec fn is_next_bookmark(s: Seq<Bookmark>, cur: i64, t: i64) -> bool {
    &&& t > cur
    &&& exists|i: int| 0 <= i < s.len() && (#[trigger] s[i]).time_ms == t
    &&& forall|i: int| 0 <= i < s.len() && (#[trigger] s[i]).time_ms > cur ==> t <= s[i].time_ms
}

/// `t` is the time of the last bookmark before `cur`.
pub open spec fn is_prev_bookmark(s: Seq<Bookmark>, cur: i64, t: i64) -> bool {
    &&& t < cur
    &&& exists|i: int| 0 <= i < s.len() && (#[trigger] s[i]).time_ms == t
    &&& forall|i: int| 0 <= i < s.len() && (#[trigger] s[i]).time_ms < cur ==> t >= s[i].time_ms
}

/// `s`, which increases in time, with `b` at its time, unless there is a bookmark
/// there already.
pub open spec fn bookmarked(s: Seq<(i64, Seq<char>)>, b: (i64, Seq<char>)) -> Seq<
    (i64, Seq<char>),
>
    decreases s.len(),
{
    if s.len() == 0 || s.last().0 < b.0 {
        s.push(b)
    } else if s.last().0 == b.0 {
        s
    } else {
        bookmarked(s.drop_last(), b).push(s.last())
    }
}

proof fn lemma_bookmarked(s: Seq<(i64, Seq<char>)>, b: (i64, Seq<char>), pos: int)
    requires
        0 <= pos <= s.len(),
        forall|i: int| 0 <= i < pos ==> (#[trigger] s[i]).0 < b.0,
        pos < s.len() ==> s[pos].0 >= b.0,
        forall|i: int| pos < i < s.len() ==> (#[trigger] s[i]).0 > b.0,
    ensures
        pos < s.len() && s[pos].0 == b.0 ==> bookmarked(s, b) == s,
        !(pos < s.len() && s[pos].0 == b.0) ==> bookmarked(s, b) == s.insert(pos, b),
    decreases s.len(),
{
    if s.len() == 0 || s.last().0 < b.0 {
        assert(pos == s.len());
        assert(s.insert(pos, b) =~= s.push(b));
    } else if s.last().0 == b.0 {
        assert(pos == s.len() - 1) by {
            if pos < s.len() - 1 {
                assert(s[s.len() - 1].0 > b.0);
            } else if pos == s.len() {
                assert(s[s.len() - 1].0 < b.0);
            }
        }
    } else {
        let d = s.drop_last();
        if pos == s.len() {
            assert(s[s.len() - 1].0 < b.0);
        }
        lemma_bookmarked(d, b, pos);
        if pos < s.len() && s[pos].0 == b.0 {
            assert(d.push(s.last()) =~= s);
        } else {
            assert(d.insert(pos, b).push(s.last()) =~= s.insert(pos, b));
        }
    }
}

/// `n` divided by `d`, towards zero.
pub open spec fn quotient(n: int, d: int) -> int {
    if n < 0 {
        -((-n) / d)
    } else {
        n / d
    }
}

/// What is left of `n` when it is divided by `d` towards zero.
pub open spec fn remainder(n: int, d: int) -> int {
    if n < 0 {
        -((-n) % d)
    } else {
        n % d
    }
}

/// A time as minutes, seconds and milliseconds.
pub open spec fn timestamp_text(ms: int) -> Seq<char> {
    let total = quotient(ms, 1000);
    let millis = remainder(ms, 1000);
    padded_int(quotient(total, 60), 2) + ":"@ + padded_int(remainder(total, 60), 2) + "."@
        + padded_int(
        if millis < 0 {
            -millis
        } else {
            millis
        },
        3,
    )
}

/// A time as minutes, seconds and milliseconds: `mm:ss.mmm`. Before the start,
/// minutes and seconds each carry their own sign.
pub fn format_timestamp_ms(ms: i64) -> (text: String)
    ensures
        text@ == timestamp_text(ms as int),
{
    let negative: bool = ms < 0;
    let size: u64 = if negative {
        (-(ms as i128)) as u64
    } else {
        ms as u64
    };
    let total: u64 = size / 1000;
    let mut text: String = String::new();
    append_padded_signed(&mut text, negative, total / 60, 2);
    text.append(":");
    append_padded_signed(&mut text, negative, total % 60, 2);
    text.append(".");
    append_padded_signed(&mut text, false, size % 1000, 3);
    proof {
        let n = ms as int;
        assert(quotient(n, 1000) == (if negative {
            -(total as int)
        } else {
            total as int
        }));
        assert(text@ =~= timestamp_text(n));
    }
    text
}

/// A time from the start on, as minutes, seconds and milliseconds; earlier ones
/// count as the start.
pub fn format_ms(ms: i64) -> (text: String)
    ensures
        text@ == timestamp_text(
            if ms < 0 {
                0
            } else {
                ms as int
            },
        ),
{
    if ms < 0 {
        format_timestamp_ms(0)
    } else {
        format_timestamp_ms(ms)
    }
}

/// The time between grid lines for a view of so many milliseconds, rounded up:
/// about an eighth of it.
pub fn calculate_time_step_ms(duration_ms: i64) -> (step: i64)
    ensures
        step == (if duration_ms <= 1600 {
            100i64
        } else if duration_ms <= 4000 {
            500i64
        } else if duration_ms <= 8000 {
            1000i64
        } else if duration_ms <= 40000 {
            5000i64
        } else if duration_ms <= 80000 {
            10000i64
        } else if duration_ms <= 240000 {
            30000i64
        } else {
            60000i64
        }),
{
    if duration_ms <= 1600 {
        100
    } else if duration_ms <= 4000 {
        500
    } else if duration_ms <= 8000 {
        1000
    } else if duration_ms <= 40000 {
        5000
    } else if duration_ms <= 80000 {
        10000
    } else if duration_ms <= 240000 {
        30000
    } else {
        60000
    }
}

/// The times of the grid lines in a view, `step` apart: the multiples of it from
/// just before the view's start to its end.
pub fn grid_ticks(view_start: i64, view_end: i64, step: i64) -> (ticks: Vec<i64>)
    requires
        view_start >= 0,
        step > 0,
        view_end + step <= i64::MAX,
    ensures
        ({
            let first = view_start - view_start % step;
            &&& ticks.len() == (if view_end < first {
                0
            } else {
                (view_end - first) / (step as int) + 1
            })
            &&& forall|k: int| 0 <= k < ticks.len() ==> #[trigger] ticks@[k] == first + k * step
        }),
{
    let mut ticks: Vec<i64> = Vec::new();
    proof {
        vstd::arithmetic::div_mod::lemma_mod_decreases(view_start as nat, step as nat);
    }
    let first: i64 = view_start - view_start % step;
    let mut t: i64 = first;
    assert(0 * step == 0) by (nonlinear_arith);
    while t <= view_end
        invariant
            step > 0,
            first >= 0,
            view_end + step <= i64::MAX,
            t == first + ticks.len() * step,
            ticks.len() > 0 ==> first + (ticks.len() - 1) * step <= view_end,
            forall|k: int| 0 <= k < ticks.len() ==> #[trigger] ticks@[k] == first + k * step,
        decreases view_end + step - t,
    {
        let ghost n = ticks.len() as int;
        ticks.push(t);
        assert((n + 1) * step == n * step + step) by (nonlinear_arith);
        t += step;
    }
    proof {
        let n = ticks.len() as int;
        if n > 0 {
            let d = view_end - first;
            assert((n - 1) * step == n * step - step) by (nonlinear_arith);
            vstd::arithmetic::div_mod::lemma_fundamental_div_mod_converse(
                d,
                step as int,
                n - 1,
                d - (n - 1) * step,
            );
        }
    }
    ticks
}

/// A new bookmark is there afterwards unless its time had one already; those that were there
/// stay, nothing else comes in, and the times still increase.
pub proof fn lemma_bookmark_added(s: Seq<(i64, Seq<char>)>, b: (i64, Seq<char>))
    requires
        forall|i: int, j: int| 0 <= i < j < s.len() ==> s[i].0 < s[j].0,
    ensures
        ({
            let after = bookmarked(s, b);
            let taken = exists|i: int| 0 <= i < s.len() && (#[trigger] s[i]).0 == b.0;
            &&& taken ==> after == s
            &&& !taken ==> after.len() == s.len() + 1 && after.to_multiset()
                == s.to_multiset().insert(b)
            &&& forall|i: int, j: int| 0 <= i < j < after.len() ==> after[i].0 < after[j].0
        }),
    decreases s.len(),
{
    broadcast use vstd::seq_lib::group_to_multiset_ensures;

    let after = bookmarked(s, b);
    if s.len() == 0 || s.last().0 < b.0 {
        assert forall|i: int| 0 <= i < s.len() implies (#[trigger] s[i]).0 < b.0 by {
            assert(i < s.len() - 1 ==> s[i].0 < s[s.len() - 1].0);
        }
    } else if s.last().0 == b.0 {
        assert(s[s.len() - 1].0 == b.0);
    } else {
        let d = s.drop_last();
        lemma_bookmark_added(d, b);
        let head = bookmarked(d, b);
        assert(s =~= d.push(s.last()));
        let taken = exists|i: int| 0 <= i < s.len() && (#[trigger] s[i]).0 == b.0;
        let taken_before = exists|i: int| 0 <= i < d.len() && (#[trigger] d[i]).0 == b.0;
        if taken {
            let i = choose|i: int| 0 <= i < s.len() && (#[trigger] s[i]).0 == b.0;
            assert(d[i].0 == b.0);
        }
        if taken_before {
            let i = choose|i: int| 0 <= i < d.len() && (#[trigger] d[i]).0 == b.0;
            assert(s[i].0 == b.0);
            assert(after =~= s);
        } else {
            assert(after.to_multiset() =~= s.to_multiset().insert(b));
        }
        assert forall|i: int, j: int| 0 <= i < j < after.len() implies after[i].0 < after[j].0 by {
            if j == head.len() {
                lemma_bookmark_below(d, b, s.last().0);
            }
        }
    }
}

proof fn lemma_bookmark_below(s: Seq<(i64, Seq<char>)>, b: (i64, Seq<char>), t: i64)
    requires
        b.0 < t,
        forall|i: int| 0 <= i < s.len() ==> (#[trigger] s[i]).0 < t,
    ensures
        forall|i: int| 0 <= i < bookmarked(s, b).len() ==> (#[trigger] bookmarked(s, b)[i]).0 < t,
    decreases s.len(),
{
    if !(s.len() == 0 || s.last().0 < b.0) && s.last().0 != b.0 {
        let d = s.drop_last();
        assert forall|i: int| 0 <= i < d.len() implies (#[trigger] d[i]).0 < t by {
            assert(d[i] == s[i]);
        }
        lemma_bookmark_below(d, b, t);
        let head = bookmarked(d, b);
        assert forall|i: int| 0 <= i < bookmarked(s, b).len() implies (#[trigger] bookmarked(
            s,
            b,
        )[i]).0 < t by {
            if i < head.len() {
                assert(bookmarked(s, b)[i] == head[i]);
            } else {
                assert(s[s.len() - 1].0 < t);
            }
        }
    }
}

/// A time from the start on is written so that it can be read back: minutes of at least two
/// digits, a colon, two digits of seconds below sixty, a dot, and three digits of
/// milliseconds.
pub proof fn lemma_time_reads_back(ms: int) -> (p: int)
    requires
        ms >= 0,
    ensures
        ({
            let text = timestamp_text(ms);
            &&& p >= 2
            &&& text.len() == p + 7
            &&& text[p] == ':'
            &&& text[p + 3] == '.'
            &&& numeral_value(text.subrange(p + 1, p + 3)) < 60
            &&& 60_000 * numeral_value(text.take(p)) + 1000 * numeral_value(
                text.subrange(p + 1, p + 3),
            ) + numeral_value(text.subrange(p + 4, p + 7)) == ms
        }),
{
    reveal_strlit(":");
    reveal_strlit(".");
    let text = timestamp_text(ms);
    let total = ms / 1000;
    let minutes = zero_padded(decimal((total / 60) as nat), 2);
    let seconds = zero_padded(decimal((total % 60) as nat), 2);
    let millis = zero_padded(decimal((ms % 1000) as nat), 3);
    lemma_padded_reads_back((total / 60) as nat, 2);
    lemma_padded_reads_back((total % 60) as nat, 2);
    lemma_padded_reads_back((ms % 1000) as nat, 3);
    reveal_with_fuel(decimal, 4);
    assert(seconds.len() == 2);
    assert(millis.len() == 3);
    let p = minutes.len() as int;
    assert(text =~= minutes + ":"@ + seconds + "."@ + millis);
    assert(text.take(p) =~= minutes);
    assert(text.subrange(p + 1, p + 3) =~= seconds);
    assert(text.subrange(p + 4, p + 7) =~= millis);
    p
}

/// The list of all places below `n` holds each of them once, in order.
pub proof fn lemma_all_places(n: nat, i: usize)
    requires
        n <= usize::MAX,
    ensures
        indices_below(n).len() == n,
        indices_below(n).contains(i) <==> i < n,
        i < n ==> indices_below(n)[i as int] == i,
{
    lemma_indices_below(n);
}

} // verus!
