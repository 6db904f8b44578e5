//! The script data model and the edits that act on a whole script.
use vstd::prelude::*;

verus! {

/// One keyframe of a script.
#[derive(Debug, Clone, Copy, PartialEq, Eq, Structural)]
pub struct Action {
    /// Timestamp in milliseconds
    pub at: i64,
    /// Position in [0, 100]
    pub pos: i32,
}

/// Descriptive fields of a script.
#[derive(Debug, PartialEq)]
pub struct Metadata {
    pub creator: Option<String>,
    pub title: Option<String>,
    pub description: Option<String>,
    pub duration: Option<i64>,
}

/// The contents of a [`Metadata`].
pub struct MetadataView {
    pub creator: Option<Seq<char>>,
    pub title: Option<Seq<char>>,
    pub description: Option<Seq<char>>,
    pub duration: Option<i64>,
}

/// The characters of an optional string.
pub open spec fn text_of(s: Option<String>) -> Option<Seq<char>> {
    match s {
        Some(t) => Some(t@),
        None => None,
    }
}

impl View for Metadata {
    type V = MetadataView;

    open spec fn view(&self) -> MetadataView {
        MetadataView {
            creator: text_of(self.creator),
            title: text_of(self.title),
            description: text_of(self.description),
            duration: self.duration,
        }
    }
}

/// Copies an optional string.
pub fn clone_text(s: &Option<String>) -> (res: Option<String>)
    ensures
        text_of(res) == text_of(*s),
{
    match s {
        Some(t) => Some(t.clone()),
        None => None,
    }
}

impl Clone for Metadata {
    fn clone(&self) -> (res: Self)
        ensures
            res@ == self@,
    {
        Metadata {
            creator: clone_text(&self.creator),
            title: clone_text(&self.title),
            description: clone_text(&self.description),
            duration: self.duration,
        }
    }
}

impl Default for Metadata {
    fn default() -> (res: Self)
        ensures
            res.creator is None,
            res.title is None,
            res.description is None,
            res.duration is None,
    {
        Metadata { creator: None, title: None, description: None, duration: None }
    }
}

/// A haptic script: a version, its keyframes and optional metadata.
#[derive(Debug, PartialEq)]
pub struct Funscript {
    pub version: String,
    pub actions: Vec<Action>,
    pub metadata: Option<Metadata>,
}

/// The contents of a [`Funscript`].
#[verifier::ext_equal]
pub struct FunscriptView {
    pub version: Seq<char>,
    pub actions: Seq<Action>,
    pub metadata: Option<MetadataView>,
}

impl View for Funscript {
    type V = FunscriptView;

    open spec fn view(&self) -> FunscriptView {
        FunscriptView {
            version: self.version@,
            actions: self.actions@,
            metadata: match self.metadata {
                Some(m) => Some(m@),
                None => None,
            },
        }
    }
}

/// Copies a list of keyframes.
pub fn clone_actions(actions: &Vec<Action>) -> (res: Vec<Action>)
    ensures
        res@ == actions@,
{
    let mut res: Vec<Action> = Vec::new();
    let mut i: usize = 0;
    while i < actions.len()
        invariant
            i <= actions.len(),
            res@ == actions@.take(i as int),
        decreases actions.len() - i,
    {
        res.push(actions[i]);
        assert(actions@.take(i + 1) =~= actions@.take(i as int).push(actions@[i as int]));
        i += 1;
    }
    assert(actions@.take(i as int) =~= actions@);
    res
}

impl Clone for Funscript {
    fn clone(&self) -> (res: Self)
        ensures
            res@ == self@,
    {
        Funscript {
            version: self.version.clone(),
            actions: clone_actions(&self.actions),
            metadata: match &self.metadata {
                Some(m) => Some(m.clone()),
                None => None,
            },
        }
    }
}

/// The position nearest to `p` in the valid range.
pub open spec fn clamped(p: i32) -> i32 {
    if p < 0 {
        0
    } else if p > 100 {
        100
    } else {
        p
    }
}

/// Clamps a position to the valid range.
pub fn clamp_pos(p: i32) -> (res: i32)
    ensures
        res == clamped(p),
        0 <= res <= 100,
{
    if p < 0 {
        0
    } else if p > 100 {
        100
    } else {
        p
    }
}

/// Timestamps never decrease.
pub open spec fn sorted_by_time(s: Seq<Action>) -> bool {
    forall|i: int, j: int| 0 <= i <= j < s.len() ==> s[i].at <= s[j].at
}

/// Timestamps strictly increase.
pub open spec fn strictly_timed(s: Seq<Action>) -> bool {
    forall|i: int, j: int| 0 <= i < j < s.len() ==> s[i].at < s[j].at
}

/// Every position lies in the valid range.
pub open spec fn positions_valid(s: Seq<Action>) -> bool {
    forall|i: int| 0 <= i < s.len() ==> 0 <= #[trigger] s[i].pos <= 100
}

/// `s`, which strictly increases in time, with `a` put at its timestamp: in
/// place of the keyframe that stands there, or between its neighbours.
pub open spec fn upserted(s: Seq<Action>, a: Action) -> Seq<Action>
    decreases s.len(),
{
    if s.len() == 0 || s.last().at < a.at {
        s.push(a)
    } else if s.last().at == a.at {
        s.drop_last().push(a)
    } else {
        upserted(s.drop_last(), a).push(s.last())
    }
}

/// The keyframes of `s` put in one after the other, each with its position
/// clamped, so that the later of two at one timestamp stays.
pub open spec fn sanitized(s: Seq<Action>) -> Seq<Action>
    decreases s.len(),
{
    if s.len() == 0 {
        s
    } else {
        let a = s.last();
        upserted(sanitized(s.drop_last()), Action { at: a.at, pos: clamped(a.pos) })
    }
}

/// For each timestamp of `s`, the clamped position of the latest keyframe there.
pub open spec fn position_map(s: Seq<Action>) -> Map<i64, i32>
    decreases s.len(),
{
    if s.len() == 0 {
        Map::empty()
    } else {
        position_map(s.drop_last()).insert(s.last().at, clamped(s.last().pos))
    }
}

/// `r` lists, in order of time and each once, the timestamps of `s` with the
/// clamped position of the latest keyframe there, and nothing else.
pub open spec fn is_sanitized_form(s: Seq<Action>, r: Seq<Action>) -> bool {
    &&& strictly_timed(r)
    &&& positions_valid(r)
    &&& position_map(r) == position_map(s)
}

proof fn lemma_upserted_below(s: Seq<Action>, a: Action, t: i64)
    requires
        a.at < t,
        forall|i: int| 0 <= i < s.len() ==> (#[trigger] s[i]).at < t,
    ensures
        forall|i: int| 0 <= i < upserted(s, a).len() ==> (#[trigger] upserted(s, a)[i]).at < t,
    decreases s.len(),
{
    let u = upserted(s, a);
    if s.len() > 0 && s.last().at > a.at {
        let d = s.drop_last();
        lemma_upserted_below(d, a, t);
        assert forall|i: int| 0 <= i < u.len() implies (#[trigger] u[i]).at < t by {
            if i < u.len() - 1 {
                assert(u[i] == upserted(d, a)[i]);
            } else {
                assert(u[i] == s[s.len() - 1]);
            }
        }
    } else {
        assert forall|i: int| 0 <= i < u.len() implies (#[trigger] u[i]).at < t by {
            if i < u.len() - 1 {
                assert(u[i] == s[i]);
            }
        }
    }
}

proof fn lemma_upserted(s: Seq<Action>, a: Action)
    requires
        strictly_timed(s),
        positions_valid(s),
        0 <= a.pos <= 100,
    ensures
        strictly_timed(upserted(s, a)),
        positions_valid(upserted(s, a)),
        position_map(upserted(s, a)) == position_map(s).insert(a.at, a.pos),
        s.len() <= upserted(s, a).len() <= s.len() + 1,
    decreases s.len(),
{
    if s.len() == 0 || s.last().at < a.at {
        assert(s.push(a).drop_last() =~= s);
    } else if s.last().at == a.at {
        let d = s.drop_last();
        assert(d.push(a).drop_last() =~= d);
        assert(position_map(d).insert(a.at, a.pos) =~= position_map(s).insert(a.at, a.pos));
    } else {
        let d = s.drop_last();
        let l = s.last();
        lemma_upserted(d, a);
        lemma_upserted_below(d, a, l.at);
        let u = upserted(d, a);
        assert(u.push(l).drop_last() =~= u);
        assert(position_map(d).insert(a.at, a.pos).insert(l.at, clamped(l.pos))
            =~= position_map(s).insert(a.at, a.pos));
    }
}

/// Sanitizing gives the sanitized form, which is no longer than the list and
/// empty only where the list is.
pub proof fn lemma_sanitized_form(s: Seq<Action>)
    ensures
        is_sanitized_form(s, sanitized(s)),
        sanitized(s).len() <= s.len(),
        s.len() > 0 ==> sanitized(s).len() > 0,
    decreases s.len(),
{
    if s.len() > 0 {
        let a = Action { at: s.last().at, pos: clamped(s.last().pos) };
        lemma_sanitized_form(s.drop_last());
        lemma_upserted(sanitized(s.drop_last()), a);
        lemma_upserted_nonempty(sanitized(s.drop_last()), a);
    }
}

proof fn lemma_upserted_nonempty(s: Seq<Action>, a: Action)
    ensures
        upserted(s, a).len() > 0,
{
}

/// A script that strictly increases in time and whose positions are valid is
/// not changed by sanitizing.
pub proof fn lemma_sanitized_fixed(s: Seq<Action>)
    requires
        strictly_timed(s),
        positions_valid(s),
    ensures
        sanitized(s) == s,
    decreases s.len(),
{
    if s.len() > 0 {
        lemma_sanitized_fixed(s.drop_last());
        assert(0 <= s[s.len() - 1].pos <= 100);
        assert(s.drop_last().push(s.last()) =~= s);
    }
}

/// Sanitizing twice is sanitizing once.
pub proof fn lemma_sanitized_idempotent(s: Seq<Action>)
    ensures
        sanitized(sanitized(s)) == sanitized(s),
{
    lemma_sanitized_form(s);
    lemma_sanitized_fixed(sanitized(s));
}

/// The position map of a list has exactly the list's timestamps, and at each
/// the clamped position of the latest keyframe.
pub proof fn lemma_position_map(s: Seq<Action>)
    ensures
        forall|i: int| 0 <= i < s.len() ==> position_map(s).dom().contains((#[trigger] s[i]).at),
        forall|t: i64| #[trigger]
            position_map(s).dom().contains(t) ==> exists|i: int| is_latest_at(s, i, t),
        forall|i: int, t: i64| #[trigger]
            is_latest_at(s, i, t) ==> position_map(s)[t] == clamped(s[i].pos),
    decreases s.len(),
{
    if s.len() > 0 {
        let d = s.drop_last();
        lemma_position_map(d);
        assert forall|i: int| 0 <= i < s.len() implies position_map(s).dom().contains(
            (#[trigger] s[i]).at,
        ) by {
            if i < d.len() {
                assert(d[i] == s[i]);
            }
        }
        assert forall|t: i64| #[trigger] position_map(s).dom().contains(t) implies exists|i: int|
            is_latest_at(s, i, t) by {
            if t == s.last().at {
                assert(is_latest_at(s, s.len() - 1, t));
            } else {
                assert(position_map(d).dom().contains(t));
                let i = choose|i: int| is_latest_at(d, i, t);
                assert forall|k: int| i < k < s.len() implies (#[trigger] s[k]).at != t by {
                    if k < d.len() {
                        assert(d[k].at != t);
                    }
                }
                assert(is_latest_at(s, i, t));
            }
        }
        assert forall|i: int, t: i64| #[trigger] is_latest_at(s, i, t) implies position_map(s)[t]
            == clamped(s[i].pos) by {
            if i < d.len() {
                assert(s[s.len() - 1].at != t);
                assert(is_latest_at(d, i, t));
            }
        }
    }
}

/// Keyframe `i` of `s` is at `t`, and no later one is.
pub open spec fn is_latest_at(s: Seq<Action>, i: int, t: i64) -> bool {
    &&& 0 <= i < s.len()
    &&& s[i].at == t
    &&& forall|k: int| i < k < s.len() ==> (#[trigger] s[k]).at != t
}

/// A list has only one sanitized form.
pub proof fn lemma_sanitized_form_unique(s: Seq<Action>, r: Seq<Action>)
    requires
        is_sanitized_form(s, r),
    ensures
        r == sanitized(s),
{
    lemma_sanitized_form(s);
    lemma_same_map(r, sanitized(s));
}

proof fn lemma_same_map(a: Seq<Action>, b: Seq<Action>)
    requires
        strictly_timed(a),
        strictly_timed(b),
        positions_valid(a),
        positions_valid(b),
        position_map(a) == position_map(b),
    ensures
        a == b,
    decreases a.len(),
{
    lemma_position_map(a);
    lemma_position_map(b);
    if a.len() == 0 {
        if b.len() > 0 {
            assert(position_map(b).dom().contains(b[0].at));
        }
        assert(a =~= b);
    } else {
        let x = a.last();
        assert(position_map(a).dom().contains(a[a.len() - 1].at));
        let k = choose|k: int| is_latest_at(b, k, x.at);
        let y = b.last();
        assert(position_map(b).dom().contains(b[b.len() - 1].at));
        let m = choose|m: int| is_latest_at(a, m, y.at);
        assert(x.at <= y.at) by {
            assert(b[k].at <= b[b.len() - 1].at);
        }
        assert(y.at <= x.at) by {
            assert(a[m].at <= a[a.len() - 1].at);
        }
        assert(is_latest_at(a, a.len() - 1, x.at));
        assert(is_latest_at(b, b.len() - 1, x.at));
        assert(x == y) by {
            assert(0 <= a[a.len() - 1].pos <= 100);
            assert(0 <= b[b.len() - 1].pos <= 100);
        }
        let a1 = a.drop_last();
        let b1 = b.drop_last();
        lemma_position_map(a1);
        lemma_position_map(b1);
        assert(!position_map(a1).dom().contains(x.at)) by {
            if position_map(a1).dom().contains(x.at) {
                let i = choose|i: int| is_latest_at(a1, i, x.at);
                assert(a[i].at < a[a.len() - 1].at);
            }
        }
        assert(!position_map(b1).dom().contains(x.at)) by {
            if position_map(b1).dom().contains(x.at) {
                let i = choose|i: int| is_latest_at(b1, i, x.at);
                assert(b[i].at < b[b.len() - 1].at);
            }
        }
        assert(position_map(a1) =~= position_map(a).remove(x.at));
        assert(position_map(b1) =~= position_map(b).remove(x.at));
        lemma_same_map(a1, b1);
        assert(a =~= a1.push(x));
        assert(b =~= b1.push(y));
    }
}

proof fn lemma_upserted_at(s: Seq<Action>, a: Action, idx: int)
    requires
        strictly_timed(s),
        0 <= idx <= s.len(),
        forall|i: int| 0 <= i < idx ==> (#[trigger] s[i]).at < a.at,
        forall|i: int| idx <= i < s.len() ==> (#[trigger] s[i]).at >= a.at,
    ensures
        idx < s.len() && s[idx].at == a.at ==> upserted(s, a) == s.update(idx, a),
        !(idx < s.len() && s[idx].at == a.at) ==> upserted(s, a) == s.insert(idx, a),
    decreases s.len(),
{
    let l = s.len() - 1;
    if s.len() == 0 || s.last().at < a.at {
        assert(s.insert(idx, a) =~= s.push(a));
    } else if s.last().at == a.at {
        assert(idx == l) by {
            if idx < l {
                assert(s[idx].at < s[l].at);
            }
        }
        assert(s.update(idx, a) =~= s.drop_last().push(a));
    } else {
        let d = s.drop_last();
        lemma_upserted_at(d, a, idx);
        if idx < s.len() && s[idx].at == a.at {
            assert(d[idx] == s[idx]);
            assert(d.update(idx, a).push(s.last()) =~= s.update(idx, a));
        } else {
            assert(d.insert(idx, a).push(s.last()) =~= s.insert(idx, a));
        }
    }
}

/// The first index of `actions` whose timestamp is at least `at`.
pub fn lower_bound(actions: &Vec<Action>, at: i64) -> (idx: usize)
    requires
        sorted_by_time(actions@),
    ensures
        idx <= actions.len(),
        forall|i: int| 0 <= i < idx ==> (#[trigger] actions@[i]).at < at,
        forall|i: int| idx <= i < actions.len() ==> (#[trigger] actions@[i]).at >= at,
{
    let mut lo: usize = 0;
    let mut hi: usize = actions.len();
    while lo < hi
        invariant
            lo <= hi <= actions.len(),
            sorted_by_time(actions@),
            forall|i: int| 0 <= i < lo ==> (#[trigger] actions@[i]).at < at,
            forall|i: int| hi <= i < actions.len() ==> (#[trigger] actions@[i]).at >= at,
        decreases hi - lo,
    {
        let mid: usize = lo + (hi - lo) / 2;
        if actions[mid].at < at {
            lo = mid + 1;
        } else {
            hi = mid;
        }
    }
    lo
}

impl Funscript {
    /// A script of the given keyframes, of version 1.0 and without metadata.
    pub fn new(actions: Vec<Action>) -> (res: Self)
        ensures
            res.version@ == "1.0"@,
            res.actions == actions,
            res.metadata is None,
    {
        Funscript { version: "1.0".to_owned(), actions, metadata: None }
    }

    /// Deduplicate identical timestamps, keeping the latest position, with the
    /// keyframes sorted by time and their positions clamped.
    pub fn sanitize(&mut self)
        ensures
            final(self).actions@ == sanitized(old(self).actions@),
            is_sanitized_form(old(self).actions@, final(self).actions@),
            positions_valid(final(self).actions@),
            final(self).actions.len() <= old(self).actions.len(),
            final(self).version == old(self).version,
            final(self).metadata == old(self).metadata,
    {
        let mut clean: Vec<Action> = Vec::new();
        let mut i: usize = 0;
        while i < self.actions.len()
            invariant
                self == old(self),
                i <= self.actions.len(),
                clean@ == sanitized(self.actions@.take(i as int)),
            decreases self.actions.len() - i,
        {
            let action: Action = self.actions[i];
            let entry: Action = Action { at: action.at, pos: clamp_pos(action.pos) };
            proof {
                lemma_sanitized_form(self.actions@.take(i as int));
                assert(self.actions@.take(i + 1).drop_last() =~= self.actions@.take(i as int));
            }
            let idx: usize = lower_bound(&clean, entry.at);
            proof {
                lemma_upserted_at(clean@, entry, idx as int);
            }
            if idx < clean.len() && clean[idx].at == entry.at {
                clean.set(idx, entry);
            } else {
                clean.insert(idx, entry);
            }
            i += 1;
        }
        proof {
            assert(self.actions@.take(i as int) =~= self.actions@);
            lemma_sanitized_form(self.actions@);
        }
        self.actions = clean;
    }

    /// The time in milliseconds from each keyframe to the next.
    pub fn step_spans(&self) -> (spans: Vec<u64>)
        requires
            strictly_timed(self.actions@),
        ensures
            self.actions.len() == 0 ==> spans.len() == 0,
            self.actions.len() > 0 ==> spans.len() == self.actions.len() - 1,
            forall|i: int|
                0 <= i < spans.len() ==> #[trigger] spans@[i] == self.actions@[i + 1].at
                    - self.actions@[i].at,
    {
        let mut spans: Vec<u64> = Vec::new();
        let mut i: usize = 1;
        while i < self.actions.len()
            invariant
                strictly_timed(self.actions@),
                1 <= i,
                self.actions.len() > 0 ==> i <= self.actions.len(),
                self.actions.len() == 0 ==> i == 1,
                spans.len() == i - 1,
                forall|k: int|
                    0 <= k < spans.len() ==> #[trigger] spans@[k] == self.actions@[k + 1].at
                        - self.actions@[k].at,
            decreases self.actions.len() - i,
        {
            assert(self.actions@[i - 1].at < self.actions@[i as int].at);
            let span: i128 = self.actions[i].at as i128 - self.actions[i - 1].at as i128;
            spans.push(span as u64);
            i += 1;
        }
        spans
    }

    /// The largest move that each step has time for at a speed in thousandths of a unit
    /// per second.
    fn safe_moves(&self, max_safe_milli: u64) -> (allowed: Vec<i32>)
        requires
            strictly_timed(self.actions@),
            self.actions.len() >= 1,
        ensures
            allowed@ == allowed_moves(self.actions@, max_safe_milli as int),
    {
        let spans: Vec<u64> = self.step_spans();
        let mut allowed: Vec<i32> = Vec::new();
        let mut i: usize = 0;
        while i < spans.len()
            invariant
                i <= spans.len(),
                i == allowed.len(),
                spans.len() == self.actions.len() - 1,
                forall|k: int|
                    0 <= k < spans.len() ==> #[trigger] spans@[k] == self.actions@[k + 1].at
                        - self.actions@[k].at,
                forall|k: int|
                    0 <= k < i ==> #[trigger] allowed@[k] == allowed_move(
                        max_safe_milli as int,
                        self.actions@[k + 1].at - self.actions@[k].at,
                    ),
            decreases spans.len() - i,
        {
            let span: u64 = spans[i];
            proof {
                assert(0 <= max_safe_milli * span <= 0xffff_ffff_ffff_ffff * 0xffff_ffff_ffff_ffff)
                    by (nonlinear_arith)
                    requires
                        0 <= max_safe_milli <= 0xffff_ffff_ffff_ffff,
                        0 <= span <= 0xffff_ffff_ffff_ffff,
                ;
            }
            let most: u128 = max_safe_milli as u128 * span as u128 / 1_000_000;
            allowed.push(
                if most > 100 {
                    100
                } else {
                    most as i32
                },
            );
            i += 1;
        }
        assert(allowed@ =~= allowed_moves(self.actions@, max_safe_milli as int));
        allowed
    }

    /// Pulls each keyframe to at most `allowed[i]` from the one before it. Returns how
    /// many keyframes were moved.
    fn limit_moves(&mut self, allowed: &Vec<i32>) -> (count: usize)
        requires
            old(self).actions.len() >= 1,
            allowed.len() == old(self).actions.len() - 1,
            positions_valid(old(self).actions@),
            forall|i: int| 0 <= i < allowed.len() ==> #[trigger] allowed@[i] >= 0,
        ensures
            final(self).version == old(self).version,
            final(self).metadata == old(self).metadata,
            final(self).actions@ == limited_actions(old(self).actions@, allowed@),
            count == moved_count(old(self).actions@, allowed@, old(self).actions@.len()),
    {
        let ghost s = self.actions@;
        let mut count: usize = 0;
        let mut i: usize = 1;
        proof {
            lemma_speed_limited(s, allowed@);
        }
        while i < self.actions.len()
            invariant
                1 <= i <= s.len(),
                s.len() == self.actions.len(),
                allowed.len() + 1 >= s.len(),
                positions_valid(s),
                forall|k: int| 0 <= k < allowed.len() ==> #[trigger] allowed@[k] >= 0,
                forall|k: int|
                    0 <= k < s.len() ==> 0 <= #[trigger] limited_pos(s, allowed@, k as nat) <= 100,
                self.version == old(self).version,
                self.metadata == old(self).metadata,
                count == moved_count(s, allowed@, i as nat),
                count < i,
                forall|k: int|
                    0 <= k < s.len() ==> (#[trigger] self.actions@[k]).at == s[k].at
                        && self.actions@[k].pos == (if k < i {
                        limited_pos(s, allowed@, k as nat)
                    } else {
                        s[k].pos as int
                    }),
            decreases self.actions.len() - i,
        {
            let at: i64 = self.actions[i].at;
            let prev_pos: i32 = self.actions[i - 1].pos;
            let curr_pos: i32 = self.actions[i].pos;
            assert(self.actions@[i as int].pos == s[i as int].pos);
            assert(0 <= s[i as int].pos <= 100);
            assert(self.actions@[i - 1].pos == limited_pos(s, allowed@, (i - 1) as nat));
            let delta: i32 = curr_pos - prev_pos;
            let size: i32 = if delta < 0 {
                -delta
            } else {
                delta
            };
            let most: i32 = allowed[i - 1];
            if size > most {
                let bounded: i32 = if delta > 0 {
                    prev_pos + most
                } else {
                    prev_pos - most
                };
                self.actions.set(i, Action { at, pos: bounded });
                count += 1;
            }
            i += 1;
        }
        assert(self.actions@ =~= limited_actions(s, allowed@));
        count
    }

    /// Fix transitions that exceed the safe motor speed, in thousandths of a unit per
    /// second, by clamping position deltas: sanitizes the script, then pulls each keyframe to as
    /// far from the one before it as there is time for. Returns how many keyframes
    /// were moved. Afterwards no step exceeds the speed.
    pub fn fix_speed_violations(&mut self, max_safe_milli: u64) -> (count: usize)
        ensures
            final(self).version == old(self).version,
            final(self).metadata == old(self).metadata,
            old(self).actions.len() < 2 ==> count == 0 && final(self).actions == old(self).actions,
            old(self).actions.len() >= 2 ==> {
                let s = sanitized(old(self).actions@);
                let allowed = allowed_moves(s, max_safe_milli as int);
                &&& count == moved_count(s, allowed, s.len())
                &&& final(self).actions@ == limited_actions(s, allowed)
                &&& speed_within(final(self).actions@, max_safe_milli as int)
            },
    {
        if self.actions.len() < 2 {
            return 0;
        }
        self.sanitize();
        proof {
            lemma_sanitized_form(old(self).actions@);
            lemma_speed_made_safe(self.actions@, max_safe_milli as int);
        }
        let allowed: Vec<i32> = self.safe_moves(max_safe_milli);
        self.limit_moves(&allowed)
    }

    /// Remove micro-jitter keyframes: after sanitizing, a keyframe between the
    /// first and the last goes if it comes less than `min_dt_ms` after the last
    /// kept one and moves by at most `min_dpos`. Returns how many went.
    pub fn remove_micro_jitters(&mut self, min_dt_ms: i64, min_dpos: i32) -> (removed: usize)
        ensures
            final(self).version == old(self).version,
            final(self).metadata == old(self).metadata,
            old(self).actions.len() < 3 ==> removed == 0 && final(self).actions == old(
                self,
            ).actions,
            old(self).actions.len() >= 3 ==> {
                let s = sanitized(old(self).actions@);
                &&& final(self).actions@ == without_jitters(s, min_dt_ms as int, min_dpos as int)
                &&& removed == s.len() - final(self).actions.len()
            },
    {
        if self.actions.len() < 3 {
            return 0;
        }
        self.sanitize();
        let initial_len: usize = self.actions.len();
        let ghost s = self.actions@;
        let mut filtered: Vec<Action> = Vec::new();
        proof {
            lemma_sanitized_form(old(self).actions@);
        }
        filtered.push(self.actions[0]);
        assert(filtered@ =~= seq![s[0]]);
        let mut i: usize = 1;
        while i < initial_len - 1
            invariant
                s == self.actions@,
                initial_len == s.len(),
                initial_len >= 1,
                1 <= i,
                initial_len >= 2 ==> i + 1 <= initial_len,
                initial_len == 1 ==> i == 1,
                1 <= filtered.len() <= i,
                positions_valid(s),
                positions_valid(filtered@),
                filtered@ == jitter_filtered(s, i as nat, min_dt_ms as int, min_dpos as int),
            decreases initial_len - i,
        {
            let prev: Action = filtered[filtered.len() - 1];
            let curr: Action = self.actions[i];
            assert(0 <= filtered@[filtered.len() - 1].pos <= 100);
            assert(0 <= s[i as int].pos <= 100);
            let dt: i128 = curr.at as i128 - prev.at as i128;
            let dpos: i32 = if curr.pos >= prev.pos {
                curr.pos - prev.pos
            } else {
                prev.pos - curr.pos
            };
            if !(dt < min_dt_ms as i128 && dpos <= min_dpos) {
                filtered.push(curr);
            }
            i += 1;
        }
        let last: Action = self.actions[initial_len - 1];
        if filtered[filtered.len() - 1].at != last.at {
            filtered.push(last);
        }
        proof {
            lemma_without_jitters(s, min_dt_ms as int, min_dpos as int);
        }
        let removed: usize = initial_len - filtered.len();
        self.actions = filtered;
        removed
    }

    /// Where the script stands at a given time: at a keyframe's position, or
    /// between two keyframes.
    pub fn interpolate_position(&self, time_ms: i64) -> (res: PositionSample)
        ensures
            sampled_at(self.actions@, time_ms, res),
    {
        let n: usize = self.actions.len();
        if n == 0 {
            return PositionSample::Rest;
        }
        if time_ms <= self.actions[0].at {
            return PositionSample::Hold(self.actions[0].pos);
        }
        if time_ms >= self.actions[n - 1].at {
            return PositionSample::Hold(self.actions[n - 1].pos);
        }
        let mut lo: usize = 1;
        let mut hi: usize = n - 1;
        while lo < hi
            invariant
                1 <= lo <= hi < n,
                n == self.actions.len(),
                self.actions@[lo - 1].at < time_ms <= self.actions@[hi as int].at,
            decreases hi - lo,
        {
            let mid: usize = lo + (hi - lo) / 2;
            if self.actions[mid].at < time_ms {
                lo = mid + 1;
            } else {
                hi = mid;
            }
        }
        let prev: Action = self.actions[lo - 1];
        let next: Action = self.actions[lo];
        assert(brackets(self.actions@, time_ms, lo as int));
        if next.at == time_ms {
            PositionSample::Hold(next.pos)
        } else {
            PositionSample::Between { prev, next }
        }
    }

    /// Replaces what lies in `[start_at, end_at]` by the points of a periodic
    /// pattern, and sanitizes. Nothing happens where the range is empty or the
    /// frequency is not positive.
    pub fn infill_pattern(
        &mut self,
        start_at: i64,
        end_at: i64,
        freq_positive: bool,
        points: &Vec<Action>,
    )
        ensures
            final(self).version == old(self).version,
            final(self).metadata == old(self).metadata,
            start_at >= end_at || !freq_positive ==> final(self).actions == old(self).actions,
            start_at < end_at && freq_positive ==> final(self).actions@ == sanitized(
                outside(old(self).actions@, start_at, end_at) + points@,
            ),
    {
        if start_at >= end_at || !freq_positive {
            return;
        }
        let mut kept: Vec<Action> = remove_range(&self.actions, start_at, end_at);
        let mut i: usize = 0;
        while i < points.len()
            invariant
                i <= points.len(),
                kept@ == outside(self.actions@, start_at, end_at) + points@.take(i as int),
            decreases points.len() - i,
        {
            kept.push(points[i]);
            assert(points@.take(i + 1) =~= points@.take(i as int).push(points@[i as int]));
            i += 1;
        }
        assert(points@.take(i as int) =~= points@);
        self.actions = kept;
        self.sanitize();
    }

    /// The signed distance of each keyframe's position from a pivot.
    pub fn pivot_offsets(&self, pivot_pos: i32) -> (offsets: Vec<i32>)
        requires
            forall|i: int|
                0 <= i < self.actions.len() ==> i32::MIN <= (#[trigger] self.actions@[i]).pos
                    - pivot_pos <= i32::MAX,
        ensures
            offsets.len() == self.actions.len(),
            forall|i: int|
                0 <= i < offsets.len() ==> #[trigger] offsets@[i] == self.actions@[i].pos
                    - pivot_pos,
    {
        let mut offsets: Vec<i32> = Vec::new();
        let mut i: usize = 0;
        while i < self.actions.len()
            invariant
                i <= self.actions.len(),
                offsets.len() == i,
                forall|i: int|
                    0 <= i < self.actions.len() ==> i32::MIN <= (#[trigger] self.actions@[i]).pos
                        - pivot_pos <= i32::MAX,
                forall|k: int|
                    0 <= k < offsets.len() ==> #[trigger] offsets@[k] == self.actions@[k].pos
                        - pivot_pos,
            decreases self.actions.len() - i,
        {
            assert(i32::MIN <= self.actions@[i as int].pos - pivot_pos <= i32::MAX);
            offsets.push(self.actions[i].pos - pivot_pos);
            i += 1;
        }
        offsets
    }

    /// Gives every keyframe its scaled position, clamped to the valid range.
    /// `scaled[i]` is the position of keyframe `i` after scaling its distance
    /// from the pivot.
    pub fn scale_amplitude(&mut self, scaled: &Vec<i32>)
        requires
            scaled.len() == old(self).actions.len(),
        ensures
            final(self).version == old(self).version,
            final(self).metadata == old(self).metadata,
            final(self).actions.len() == old(self).actions.len(),
            forall|i: int|
                0 <= i < scaled.len() ==> (#[trigger] final(self).actions@[i]) == (Action {
                    at: old(self).actions@[i].at,
                    pos: clamped(scaled@[i]),
                }),
    {
        let mut i: usize = 0;
        while i < self.actions.len()
            invariant
                i <= self.actions.len(),
                scaled.len() == self.actions.len(),
                self.actions.len() == old(self).actions.len(),
                self.version == old(self).version,
                self.metadata == old(self).metadata,
                forall|k: int|
                    0 <= k < self.actions.len() ==> (#[trigger] self.actions@[k]) == (if k < i {
                        Action { at: old(self).actions@[k].at, pos: clamped(scaled@[k]) }
                    } else {
                        old(self).actions@[k]
                    }),
            decreases self.actions.len() - i,
        {
            let at: i64 = self.actions[i].at;
            self.actions.set(i, Action { at, pos: clamp_pos(scaled[i]) });
            i += 1;
        }
    }

    /// Invert all positions: `pos` becomes `100 - pos`.
    pub fn invert_positions(&mut self)
        ensures
            final(self).version == old(self).version,
            final(self).metadata == old(self).metadata,
            final(self).actions@ == inverted(old(self).actions@),
    {
        let mut i: usize = 0;
        while i < self.actions.len()
            invariant
                i <= self.actions.len(),
                self.actions.len() == old(self).actions.len(),
                self.version == old(self).version,
                self.metadata == old(self).metadata,
                forall|k: int|
                    0 <= k < self.actions.len() ==> (#[trigger] self.actions@[k]) == (if k < i {
                        inverted(old(self).actions@)[k]
                    } else {
                        old(self).actions@[k]
                    }),
            decreases self.actions.len() - i,
        {
            let a: Action = self.actions[i];
            self.actions.set(i, Action { at: a.at, pos: 100 - clamp_pos(a.pos) });
            i += 1;
        }
        assert(self.actions@ =~= inverted(old(self).actions@));
    }
}

/// A periodic waveform that can fill a stretch of a script.
#[derive(Debug, Clone, Copy, PartialEq, Eq, Structural)]
pub enum InfillPattern {
    Sine,
    Triangle,
    Sawtooth,
}

impl InfillPattern {
    /// How many points one cycle of the pattern is drawn with.
    pub fn points_per_cycle(&self) -> (n: u32)
        ensures
            n == (match *self {
                InfillPattern::Sine => 8u32,
                InfillPattern::Triangle => 4u32,
                InfillPattern::Sawtooth => 3u32,
            }),
    {
        match self {
            InfillPattern::Sine => 8,
            InfillPattern::Triangle => 4,
            InfillPattern::Sawtooth => 3,
        }
    }
}

/// Where a script stands at some moment.
#[derive(Debug, Clone, Copy, PartialEq, Eq, Structural)]
pub enum PositionSample {
    /// The script has no keyframe: position 0.
    Rest,
    /// Exactly this position.
    Hold(i32),
    /// On the straight line between two keyframes, strictly between their times.
    Between { prev: Action, next: Action },
}

/// Keyframes `i - 1` and `i` of `s` enclose time `t`.
pub open spec fn brackets(s: Seq<Action>, t: i64, i: int) -> bool {
    0 < i < s.len() && s[i - 1].at < t <= s[i].at
}

/// `res` is where a script with keyframes `s` stands at time `t`.
pub open spec fn sampled_at(s: Seq<Action>, t: i64, res: PositionSample) -> bool {
    if s.len() == 0 {
        res == PositionSample::Rest
    } else if t <= s[0].at {
        res == PositionSample::Hold(s[0].pos)
    } else if t >= s.last().at {
        res == PositionSample::Hold(s.last().pos)
    } else {
        exists|i: int| #[trigger]
            brackets(s, t, i) && res == (if s[i].at == t {
                PositionSample::Hold(s[i].pos)
            } else {
                PositionSample::Between { prev: s[i - 1], next: s[i] }
            })
    }
}

/// In a script sorted by time there is one answer to where it stands at `t`,
/// and at a keyframe of a strictly timed script it is that keyframe's position.
pub proof fn lemma_sample_unique(s: Seq<Action>, t: i64, a: PositionSample, b: PositionSample)
    requires
        sorted_by_time(s),
        sampled_at(s, t, a),
        sampled_at(s, t, b),
    ensures
        a == b,
        forall|i: int|
            0 <= i < s.len() && strictly_timed(s) && (#[trigger] s[i]).at == t ==> a
                == PositionSample::Hold(s[i].pos),
{
    if s.len() > 0 && s[0].at < t && t < s.last().at {
        let i = choose|i: int| #[trigger]
            brackets(s, t, i) && a == (if s[i].at == t {
                PositionSample::Hold(s[i].pos)
            } else {
                PositionSample::Between { prev: s[i - 1], next: s[i] }
            });
        let j = choose|j: int| #[trigger]
            brackets(s, t, j) && b == (if s[j].at == t {
                PositionSample::Hold(s[j].pos)
            } else {
                PositionSample::Between { prev: s[j - 1], next: s[j] }
            });
        if i < j {
            assert(s[i].at <= s[j - 1].at);
        } else if j < i {
            assert(s[j].at <= s[i - 1].at);
        }
        assert forall|k: int|
            0 <= k < s.len() && strictly_timed(s) && (#[trigger] s[k]).at == t implies a
            == PositionSample::Hold(s[k].pos) by {
            if k < i {
                assert(s[k].at <= s[i - 1].at);
            } else if k > i {
                assert(s[i].at < s[k].at);
            }
        }
    } else {
        assert forall|k: int|
            0 <= k < s.len() && strictly_timed(s) && (#[trigger] s[k]).at == t implies a
            == PositionSample::Hold(s[k].pos) by {
            assert(s[0].at <= s[k].at <= s[s.len() - 1].at);
            if 0 < k {
                assert(s[0].at < s[k].at);
            }
            if k < s.len() - 1 {
                assert(s[k].at < s[s.len() - 1].at);
            }
        }
    }
}

/// Position `cur` pulled to at most `allowed` from `prev`.
pub open spec fn limited(prev: int, cur: int, allowed: int) -> int {
    if cur - prev > allowed {
        prev + allowed
    } else if prev - cur > allowed {
        prev - allowed
    } else {
        cur
    }
}

/// The move from `prev` to `cur` is larger than `allowed`.
pub open spec fn exceeds(prev: int, cur: int, allowed: int) -> bool {
    cur - prev > allowed || prev - cur > allowed
}

/// The position of keyframe `i` once every keyframe before it, and then it, has
/// been pulled to at most the allowed distance from its predecessor.
pub open spec fn limited_pos(s: Seq<Action>, allowed: Seq<i32>, i: nat) -> int
    decreases i,
{
    if i == 0 {
        s[0].pos as int
    } else {
        limited(
            limited_pos(s, allowed, (i - 1) as nat),
            s[i as int].pos as int,
            allowed[i - 1] as int,
        )
    }
}

/// The keyframes, each at most its allowed distance from its predecessor.
pub open spec fn limited_actions(s: Seq<Action>, allowed: Seq<i32>) -> Seq<Action> {
    Seq::new(
        s.len(),
        |i: int| Action { at: s[i].at, pos: limited_pos(s, allowed, i as nat) as i32 },
    )
}

/// How many of the first `n` keyframes have to be pulled.
pub open spec fn moved_count(s: Seq<Action>, allowed: Seq<i32>, n: nat) -> nat
    decreases n,
{
    if n <= 1 {
        0
    } else {
        moved_count(s, allowed, (n - 1) as nat) + if exceeds(
            limited_pos(s, allowed, (n - 2) as nat),
            s[n - 1].pos as int,
            allowed[n - 2] as int,
        ) {
            1nat
        } else {
            0nat
        }
    }
}

/// A move of `dpos` units in `dt` milliseconds is faster than `limit` thousandths of a
/// unit per second.
pub open spec fn too_fast(dpos: int, dt: int, limit: int) -> bool {
    dpos * 1_000_000 > limit * dt
}

/// The largest whole move that is not too fast in `dt` milliseconds, up to the whole
/// range of positions.
pub open spec fn allowed_move(limit: int, dt: int) -> int {
    let most = limit * dt / 1_000_000;
    if most > 100 {
        100
    } else {
        most
    }
}

/// The largest move that each step has time for.
pub open spec fn allowed_moves(s: Seq<Action>, limit: int) -> Seq<i32> {
    Seq::new((s.len() - 1) as nat, |i: int| allowed_move(limit, s[i + 1].at - s[i].at) as i32)
}

/// No step is faster than `limit` thousandths of a unit per second.
pub open spec fn speed_within(s: Seq<Action>, limit: int) -> bool {
    forall|i: int|
        1 <= i < s.len() ==> {
            &&& !too_fast((#[trigger] s[i]).pos - s[i - 1].pos, s[i].at - s[i - 1].at, limit)
            &&& !too_fast(s[i - 1].pos - s[i].pos, s[i].at - s[i - 1].at, limit)
        }
}

/// With allowances that are not negative no position leaves the valid range, and
/// afterwards no step is larger than its allowance.
pub proof fn lemma_speed_limited(s: Seq<Action>, allowed: Seq<i32>)
    requires
        positions_valid(s),
        s.len() >= 1,
        allowed.len() + 1 >= s.len(),
        forall|i: int| 0 <= i < allowed.len() ==> #[trigger] allowed[i] >= 0,
    ensures
        forall|i: int|
            0 <= i < s.len() ==> 0 <= #[trigger] limited_pos(s, allowed, i as nat) <= 100,
        forall|i: int|
            1 <= i < s.len() ==> !exceeds(
                limited_pos(s, allowed, (i - 1) as nat),
                #[trigger] limited_pos(s, allowed, i as nat),
                allowed[i - 1] as int,
            ),
{
    assert forall|i: int| 0 <= i < s.len() implies 0 <= #[trigger] limited_pos(
        s,
        allowed,
        i as nat,
    ) <= 100 by {
        lemma_limited_valid(s, allowed, i as nat);
    }
    assert forall|i: int| 1 <= i < s.len() implies !exceeds(
        limited_pos(s, allowed, (i - 1) as nat),
        #[trigger] limited_pos(s, allowed, i as nat),
        allowed[i - 1] as int,
    ) by {
        lemma_limited_valid(s, allowed, (i - 1) as nat);
        assert(0 <= s[i].pos <= 100);
    }
}

proof fn lemma_limited_valid(s: Seq<Action>, allowed: Seq<i32>, i: nat)
    requires
        positions_valid(s),
        i < s.len(),
        allowed.len() + 1 >= s.len(),
        forall|i: int| 0 <= i < allowed.len() ==> #[trigger] allowed[i] >= 0,
    ensures
        0 <= limited_pos(s, allowed, i) <= 100,
    decreases i,
{
    assert(0 <= s[i as int].pos <= 100);
    if i > 0 {
        lemma_limited_valid(s, allowed, (i - 1) as nat);
    }
}

/// Pulling the keyframes of a sanitized script to what each step has time for leaves no
/// step that is too fast, changes no time, and keeps every position valid.
pub proof fn lemma_speed_made_safe(s: Seq<Action>, limit: int)
    requires
        strictly_timed(s),
        positions_valid(s),
        s.len() >= 1,
        limit >= 0,
    ensures
        forall|i: int|
            0 <= i < s.len() - 1 ==> 0 <= #[trigger] allowed_moves(s, limit)[i] <= 100,
        strictly_timed(limited_actions(s, allowed_moves(s, limit))),
        positions_valid(limited_actions(s, allowed_moves(s, limit))),
        speed_within(limited_actions(s, allowed_moves(s, limit)), limit),
{
    let allowed = allowed_moves(s, limit);
    let fixed = limited_actions(s, allowed);
    assert forall|i: int| 0 <= i < s.len() - 1 implies 0 <= #[trigger] allowed[i] <= 100
        && allowed[i] * 1_000_000 <= limit * (s[i + 1].at - s[i].at) by {
        assert(s[i].at < s[i + 1].at);
        let dt = s[i + 1].at - s[i].at;
        assert(limit * dt >= 0) by (nonlinear_arith)
            requires
                limit >= 0,
                dt >= 0,
        ;
    }
    lemma_speed_limited(s, allowed);
    assert forall|i: int| 1 <= i < fixed.len() implies !too_fast(
        (#[trigger] fixed[i]).pos - fixed[i - 1].pos,
        fixed[i].at - fixed[i - 1].at,
        limit,
    ) && !too_fast(fixed[i - 1].pos - fixed[i].pos, fixed[i].at - fixed[i - 1].at, limit) by {
        assert(allowed[i - 1] * 1_000_000 <= limit * (s[i].at - s[i - 1].at));
        assert(!exceeds(
            limited_pos(s, allowed, (i - 1) as nat),
            limited_pos(s, allowed, i as nat),
            allowed[i - 1] as int,
        ));
    }
}

/// `curr` comes soon after `prev` and hardly moves.
pub open spec fn is_jitter(prev: Action, curr: Action, min_dt: int, min_dpos: int) -> bool {
    &&& curr.at - prev.at < min_dt
    &&& curr.pos - prev.pos <= min_dpos
    &&& prev.pos - curr.pos <= min_dpos
}

/// The first `k` keyframes of `s` (at least one) without each that is a jitter
/// after the last one kept before it.
pub open spec fn jitter_filtered(s: Seq<Action>, k: nat, min_dt: int, min_dpos: int) -> Seq<Action>
    decreases k,
{
    if k <= 1 {
        seq![s[0]]
    } else {
        let kept = jitter_filtered(s, (k - 1) as nat, min_dt, min_dpos);
        if is_jitter(kept.last(), s[k - 1], min_dt, min_dpos) {
            kept
        } else {
            kept.push(s[k - 1])
        }
    }
}

/// `s` without its jitters; the first and the last keyframe always stay.
pub open spec fn without_jitters(s: Seq<Action>, min_dt: int, min_dpos: int) -> Seq<Action> {
    let kept = jitter_filtered(s, (s.len() - 1) as nat, min_dt, min_dpos);
    if kept.last().at != s.last().at {
        kept.push(s.last())
    } else {
        kept
    }
}

proof fn lemma_jitter_filtered(s: Seq<Action>, k: nat, min_dt: int, min_dpos: int)
    requires
        1 <= k <= s.len(),
        strictly_timed(s),
    ensures
        1 <= jitter_filtered(s, k, min_dt, min_dpos).len() <= k,
        jitter_filtered(s, k, min_dt, min_dpos)[0] == s[0],
        strictly_timed(jitter_filtered(s, k, min_dt, min_dpos)),
        jitter_filtered(s, k, min_dt, min_dpos).last().at <= s[k - 1].at,
        forall|i: int|
            0 <= i < jitter_filtered(s, k, min_dt, min_dpos).len() ==> s.contains(
                #[trigger] jitter_filtered(s, k, min_dt, min_dpos)[i],
            ),
    decreases k,
{
    let f = jitter_filtered(s, k, min_dt, min_dpos);
    if k <= 1 {
        assert(s.contains(s[0]));
    } else {
        lemma_jitter_filtered(s, (k - 1) as nat, min_dt, min_dpos);
        let p = jitter_filtered(s, (k - 1) as nat, min_dt, min_dpos);
        assert(s[k - 2].at < s[k - 1].at);
        assert(s.contains(s[k - 1]));
        if !is_jitter(p.last(), s[k - 1], min_dt, min_dpos) {
            assert(f == p.push(s[k - 1]));
            assert forall|i: int, j: int| 0 <= i < j < f.len() implies f[i].at < f[j].at by {
                if j == p.len() {
                    assert(p[i].at <= p[p.len() - 1].at);
                }
            }
        }
    }
}

/// Removing the jitters of a sanitized script keeps its first and last
/// keyframe, invents none, and leaves it strictly timed.
pub proof fn lemma_without_jitters(s: Seq<Action>, min_dt: int, min_dpos: int)
    requires
        s.len() >= 1,
        strictly_timed(s),
    ensures
        1 <= without_jitters(s, min_dt, min_dpos).len() <= s.len(),
        without_jitters(s, min_dt, min_dpos)[0] == s[0],
        without_jitters(s, min_dt, min_dpos).last() == s.last(),
        strictly_timed(without_jitters(s, min_dt, min_dpos)),
        forall|i: int|
            0 <= i < without_jitters(s, min_dt, min_dpos).len() ==> s.contains(
                #[trigger] without_jitters(s, min_dt, min_dpos)[i],
            ),
{
    assert(s.contains(s[s.len() - 1]));
    if s.len() >= 2 {
        let k = (s.len() - 1) as nat;
        lemma_jitter_filtered(s, k, min_dt, min_dpos);
        let f = jitter_filtered(s, k, min_dt, min_dpos);
        assert(s[k - 1].at < s[k as int].at);
        let w = without_jitters(s, min_dt, min_dpos);
        assert(w == f.push(s.last()));
        assert forall|i: int, j: int| 0 <= i < j < w.len() implies w[i].at < w[j].at by {
            if j == f.len() {
                assert(f[i].at <= f[f.len() - 1].at);
            }
        }
    } else {
        assert(jitter_filtered(s, 0, min_dt, min_dpos) == seq![s[0]]);
        assert(s.contains(s[0]));
    }
}

/// The keyframes of `s` before `start` or after `end`.
pub open spec fn outside(s: Seq<Action>, start: i64, end: i64) -> Seq<Action> {
    s.filter(|a: Action| a.at < start || a.at > end)
}

/// The keyframes outside `[start, end]`, in their order.
pub fn remove_range(actions: &Vec<Action>, start: i64, end: i64) -> (kept: Vec<Action>)
    ensures
        kept@ == outside(actions@, start, end),
{
    let mut kept: Vec<Action> = Vec::new();
    let mut i: usize = 0;
    proof {
        reveal(Seq::filter);
        assert(outside(actions@.take(0), start, end) =~= Seq::empty());
    }
    while i < actions.len()
        invariant
            i <= actions.len(),
            kept@ == outside(actions@.take(i as int), start, end),
        decreases actions.len() - i,
    {
        let a: Action = actions[i];
        proof {
            reveal(Seq::filter);
            assert(actions@.take(i + 1).drop_last() =~= actions@.take(i as int));
        }
        if a.at < start || a.at > end {
            kept.push(a);
        }
        i += 1;
    }
    assert(actions@.take(i as int) =~= actions@);
    kept
}

/// `s` with every position `p` turned into `100 - p`.
pub open spec fn inverted(s: Seq<Action>) -> Seq<Action> {
    s.map_values(|a: Action| Action { at: a.at, pos: (100 - clamped(a.pos)) as i32 })
}

/// Inverting twice gives a script of valid positions back.
pub proof fn lemma_inverted_twice(s: Seq<Action>)
    requires
        positions_valid(s),
    ensures
        inverted(inverted(s)) == s,
{
    assert forall|i: int| 0 <= i < s.len() implies inverted(inverted(s))[i] == s[i] by {
        assert(0 <= s[i].pos <= 100);
    }
    assert(inverted(inverted(s)) =~= s);
}

/// Inverting keeps the number and times of the keyframes, and a valid position and its
/// inverse are as far from the two ends of the range.
pub proof fn lemma_inverted_positions(s: Seq<Action>)
    ensures
        inverted(s).len() == s.len(),
        forall|i: int|
            0 <= i < s.len() ==> (#[trigger] inverted(s)[i]).at == s[i].at && (0 <= s[i].pos <= 100
                ==> inverted(s)[i].pos + s[i].pos == 100) && (s[i].pos < 0 ==> inverted(s)[i].pos
                == 100) && (s[i].pos > 100 ==> inverted(s)[i].pos == 0),
{
}

/// Sanitizing keeps, of the keyframes at each time, the latest one of the list, with
/// its position brought to the nearer end of the range where it lies outside; nothing
/// else is in the result, whose times strictly increase.
pub proof fn lemma_sanitized_keyframes(s: Seq<Action>)
    ensures
        forall|i: int|
            0 <= i < s.len() && (forall|k: int| i < k < s.len() ==> (#[trigger] s[k]).at != s[i].at)
                ==> sanitized(s).contains(
                Action {
                    at: (#[trigger] s[i]).at,
                    pos: if s[i].pos < 0 {
                        0
                    } else if s[i].pos > 100 {
                        100
                    } else {
                        s[i].pos
                    },
                },
            ),
        forall|k: int|
            0 <= k < sanitized(s).len() ==> exists|i: int|
                {
                    &&& 0 <= i < s.len()
                    &&& (#[trigger] s[i]).at == (#[trigger] sanitized(s)[k]).at
                    &&& forall|j: int| i < j < s.len() ==> (#[trigger] s[j]).at != s[i].at
                    &&& sanitized(s)[k].pos == (if s[i].pos < 0 {
                        0
                    } else if s[i].pos > 100 {
                        100
                    } else {
                        s[i].pos
                    })
                },
        forall|j: int, k: int|
            0 <= j < k < sanitized(s).len() ==> sanitized(s)[j].at < sanitized(s)[k].at,
{
    let r = sanitized(s);
    lemma_sanitized_form(s);
    lemma_position_map(s);
    lemma_position_map(r);
    assert forall|i: int|
        0 <= i < s.len() && (forall|k: int| i < k < s.len() ==> (#[trigger] s[k]).at
            != s[i].at) implies r.contains(
        Action { at: (#[trigger] s[i]).at, pos: clamped(s[i].pos) },
    ) by {
        assert(is_latest_at(s, i, s[i].at));
        assert(position_map(r).dom().contains(s[i].at));
        let k = choose|k: int| is_latest_at(r, k, s[i].at);
        assert(0 <= r[k].pos <= 100);
        assert(r[k] == (Action { at: s[i].at, pos: clamped(s[i].pos) }));
    }
    assert forall|k: int| 0 <= k < r.len() implies exists|i: int|
        {
            &&& 0 <= i < s.len()
            &&& (#[trigger] s[i]).at == (#[trigger] r[k]).at
            &&& forall|j: int| i < j < s.len() ==> (#[trigger] s[j]).at != s[i].at
            &&& r[k].pos == clamped(s[i].pos)
        } by {
        let t = r[k].at;
        assert(position_map(s).dom().contains(t));
        let i = choose|i: int| is_latest_at(s, i, t);
        assert(is_latest_at(r, k, t)) by {
            assert forall|j: int| k < j < r.len() implies (#[trigger] r[j]).at != t by {
                assert(r[k].at < r[j].at);
            }
        }
        assert(0 <= r[k].pos <= 100);
        assert(s[i].at == r[k].at);
    }
}

/// Every time of a list is a time of its sanitized form, and no other; a valid position
/// that no later keyframe of the list replaces stays.
pub proof fn lemma_sanitized_time(s: Seq<Action>, i: int) -> (k: int)
    requires
        0 <= i < s.len(),
    ensures
        0 <= k < sanitized(s).len(),
        sanitized(s)[k].at == s[i].at,
        0 <= s[i].pos <= 100 && (forall|j: int| i < j < s.len() ==> (#[trigger] s[j]).at != s[i].at)
            ==> sanitized(s)[k].pos == s[i].pos,
{
    let r = sanitized(s);
    lemma_sanitized_form(s);
    lemma_position_map(s);
    lemma_position_map(r);
    let t = s[i].at;
    assert(position_map(s).dom().contains(t));
    let k = choose|k: int| is_latest_at(r, k, t);
    assert(0 <= r[k].pos <= 100);
    if forall|j: int| i < j < s.len() ==> (#[trigger] s[j]).at != t {
        assert(is_latest_at(s, i, t));
    }
    k
}

/// A time of the sanitized form is a time of the list.
pub proof fn lemma_time_of_sanitized(s: Seq<Action>, k: int) -> (i: int)
    requires
        0 <= k < sanitized(s).len(),
    ensures
        0 <= i < s.len(),
        s[i].at == sanitized(s)[k].at,
{
    lemma_sanitized_form(s);
    lemma_position_map(s);
    lemma_position_map(sanitized(s));
    let t = sanitized(s)[k].at;
    assert(position_map(s).dom().contains(t));
    choose|i: int| is_latest_at(s, i, t)
}

/// What lies outside a range are the keyframes before its start and after its end, and
/// all of them.
pub proof fn lemma_outside(s: Seq<Action>, start: i64, end: i64)
    ensures
        forall|i: int|
            0 <= i < outside(s, start, end).len() ==> s.contains(
                #[trigger] outside(s, start, end)[i],
            ) && (outside(s, start, end)[i].at < start || outside(s, start, end)[i].at > end),
        forall|i: int|
            0 <= i < s.len() && (s[i].at < start || s[i].at > end) ==> outside(
                s,
                start,
                end,
            ).contains(#[trigger] s[i]),
        sorted_by_time(s) ==> sorted_by_time(outside(s, start, end)),
    decreases s.len(),
{
    reveal(Seq::filter);
    let r = outside(s, start, end);
    if s.len() > 0 {
        let d = s.drop_last();
        let q = outside(d, start, end);
        lemma_outside(d, start, end);
        let keep = s.last().at < start || s.last().at > end;
        assert(r == if keep {
            q.push(s.last())
        } else {
            q
        });
        assert(s[s.len() - 1] == s.last());
        assert forall|i: int| 0 <= i < r.len() implies s.contains(#[trigger] r[i]) && (r[i].at
            < start || r[i].at > end) by {
            if i < q.len() {
                assert(d.contains(q[i]));
                let j = choose|j: int| 0 <= j < d.len() && d[j] == q[i];
                assert(s[j] == r[i]);
            }
        }
        assert forall|i: int| 0 <= i < s.len() && (s[i].at < start || s[i].at > end) implies r.contains(
            #[trigger] s[i],
        ) by {
            if i < d.len() {
                assert(d[i] == s[i]);
                assert(q.contains(d[i]));
                let j = choose|j: int| 0 <= j < q.len() && q[j] == d[i];
                assert(r[j] == s[i]);
            } else {
                assert(r[q.len() as int] == s[i]);
            }
        }
        if sorted_by_time(s) {
            assert forall|i: int, j: int| 0 <= i <= j < r.len() implies r[i].at <= r[j].at by {
                if j == q.len() && i < q.len() {
                    assert(d.contains(q[i]));
                    let m = choose|m: int| 0 <= m < d.len() && d[m] == q[i];
                    assert(s[m].at <= s[s.len() - 1].at);
                }
            }
        }
    }
}

/// A range that is replaced by points holds those points alone: a keyframe in the
/// result stands at a point's time, or comes from the script and lies outside the range.
/// Each keyframe outside stays where no other keyframe or point has its time, and each
/// point is in the result where no later one has its time.
pub proof fn lemma_range_replaced(s: Seq<Action>, start: i64, end: i64, points: Seq<Action>)
    ensures
        ({
            let r = sanitized(outside(s, start, end) + points);
            &&& forall|k: int|
                0 <= k < r.len() ==> (exists|i: int|
                    0 <= i < points.len() && (#[trigger] points[i]).at == (#[trigger] r[k]).at) || (
                exists|i: int|
                    0 <= i < s.len() && (#[trigger] s[i]).at == r[k].at && (s[i].at < start
                        || s[i].at > end))
            &&& forall|i: int|
                0 <= i < points.len() && 0 <= points[i].pos <= 100 && (forall|k: int|
                    i < k < points.len() ==> (#[trigger] points[k]).at != points[i].at)
                    ==> r.contains(#[trigger] points[i])
            &&& forall|i: int|
                0 <= i < s.len() && (s[i].at < start || s[i].at > end) && 0 <= s[i].pos <= 100 && (
                forall|k: int| 0 <= k < s.len() && k != i ==> (#[trigger] s[k]).at != s[i].at) && (
                forall|k: int| 0 <= k < points.len() ==> (#[trigger] points[k]).at != s[i].at)
                    ==> r.contains(#[trigger] s[i])
        }),
{
    let kept = outside(s, start, end);
    let all = kept + points;
    let r = sanitized(all);
    lemma_sanitized_keyframes(all);
    lemma_outside(s, start, end);
    assert forall|k: int| 0 <= k < r.len() implies (exists|i: int|
        0 <= i < points.len() && (#[trigger] points[i]).at == (#[trigger] r[k]).at) || (exists|
        i: int,
    |
        0 <= i < s.len() && (#[trigger] s[i]).at == r[k].at && (s[i].at < start || s[i].at
            > end)) by {
        let i = choose|i: int| 0 <= i < all.len() && (#[trigger] all[i]).at == r[k].at;
        if i < kept.len() {
            assert(s.contains(kept[i]));
            let j = choose|j: int| 0 <= j < s.len() && s[j] == kept[i];
            assert(s[j].at == r[k].at);
        } else {
            assert(points[i - kept.len()].at == r[k].at);
        }
    }
    assert forall|i: int|
        0 <= i < points.len() && 0 <= points[i].pos <= 100 && (forall|k: int|
            i < k < points.len() ==> (#[trigger] points[k]).at != points[i].at) implies r.contains(
        #[trigger] points[i],
    ) by {
        let m = kept.len() + i;
        assert(all[m] == points[i]);
        assert forall|k: int| m < k < all.len() implies (#[trigger] all[k]).at != all[m].at by {
            assert(all[k] == points[k - kept.len()]);
        }
        assert(r.contains(Action { at: all[m].at, pos: all[m].pos }));
    }
    assert forall|i: int|
        0 <= i < s.len() && (s[i].at < start || s[i].at > end) && 0 <= s[i].pos <= 100 && (forall|
            k: int,
        |
            0 <= k < s.len() && k != i ==> (#[trigger] s[k]).at != s[i].at) && (forall|k: int|
            0 <= k < points.len() ==> (#[trigger] points[k]).at != s[i].at) implies r.contains(
        #[trigger] s[i],
    ) by {
        assert(kept.contains(s[i]));
        let m = choose|m: int| 0 <= m < kept.len() && kept[m] == s[i];
        let mm = last_place_of(all, s[i].at);
        lemma_last_place(all, s[i].at, m);
        assert(all[m] == s[i]);
        if mm < kept.len() {
            assert(s.contains(kept[mm]));
            let j = choose|j: int| 0 <= j < s.len() && s[j] == kept[mm];
            assert(j == i);
        } else {
            assert(all[mm] == points[mm - kept.len()]);
        }
        assert(r.contains(Action { at: all[mm].at, pos: all[mm].pos }));
    }
}

spec fn last_place_of(s: Seq<Action>, t: i64) -> int
    decreases s.len(),
{
    if s.len() == 0 {
        -1
    } else if s.last().at == t {
        s.len() - 1
    } else {
        last_place_of(s.drop_last(), t)
    }
}

proof fn lemma_last_place(s: Seq<Action>, t: i64, m: int)
    requires
        0 <= m < s.len(),
        s[m].at == t,
    ensures
        m <= last_place_of(s, t) < s.len(),
        s[last_place_of(s, t)].at == t,
        forall|k: int| last_place_of(s, t) < k < s.len() ==> (#[trigger] s[k]).at != t,
    decreases s.len(),
{
    if s.last().at != t {
        let d = s.drop_last();
        lemma_last_place(d, t, m);
        assert forall|k: int| last_place_of(s, t) < k < s.len() implies (#[trigger] s[k]).at
            != t by {
            if k < d.len() {
                assert(d[k] == s[k]);
            }
        }
    }
}

/// Before its first keyframe and behind its last one a script stands where those do.
/// Between it stands at a keyframe's position at its time, and otherwise on the way
/// between the two neighbouring keyframes that enclose the time.
pub proof fn lemma_sample_position(s: Seq<Action>, t: i64, res: PositionSample)
    requires
        sampled_at(s, t, res),
        s.len() > 0,
    ensures
        t <= s[0].at ==> res == PositionSample::Hold(s[0].pos),
        t > s[0].at && t >= s.last().at ==> res == PositionSample::Hold(s.last().pos),
        s[0].at < t < s.last().at ==> exists|i: int|
            {
                &&& 0 < i < s.len()
                &&& s[i - 1].at < t <= (#[trigger] s[i]).at
                &&& t == s[i].at ==> res == PositionSample::Hold(s[i].pos)
                &&& t < s[i].at ==> (res matches PositionSample::Between { prev, next } && prev
                    == s[i - 1] && next == s[i])
            },
{
    if s[0].at < t < s.last().at {
        let i = choose|i: int| #[trigger]
            brackets(s, t, i) && res == (if s[i].at == t {
                PositionSample::Hold(s[i].pos)
            } else {
                PositionSample::Between { prev: s[i - 1], next: s[i] }
            });
        assert(s[i].at >= t);
    }
}

/// `a` comes less than `min_dt` after the last keyframe of `w` before it, and moves from
/// there by no more than `min_dpos`.
pub open spec fn hardly_moves_after(
    w: Seq<Action>,
    a: Action,
    min_dt: int,
    min_dpos: int,
) -> bool {
    exists|k: int|
        {
            &&& 0 <= k < w.len()
            &&& (#[trigger] w[k]).at < a.at
            &&& k + 1 < w.len() ==> a.at < w[k + 1].at
            &&& a.at - w[k].at < min_dt
            &&& -min_dpos <= a.pos - w[k].pos <= min_dpos
        }
}

/// Removing jitters removes those and no others: a keyframe that is gone comes less
/// than the time after the last one left before it and moves from there by no more than
/// the distance, and one that is left between the ends does not.
pub proof fn lemma_only_jitters_removed(s: Seq<Action>, min_dt: int, min_dpos: int)
    requires
        s.len() >= 2,
        strictly_timed(s),
    ensures
        ({
            let w = without_jitters(s, min_dt, min_dpos);
            &&& forall|k: int|
                0 < k < w.len() - 1 ==> (#[trigger] w[k]).at - w[k - 1].at >= min_dt || w[k].pos
                    - w[k - 1].pos > min_dpos || w[k - 1].pos - w[k].pos > min_dpos
            &&& forall|i: int|
                0 <= i < s.len() ==> w.contains(#[trigger] s[i]) || hardly_moves_after(
                    w,
                    s[i],
                    min_dt,
                    min_dpos,
                )
        }),
{
    let n = (s.len() - 1) as nat;
    let f = jitter_filtered(s, n, min_dt, min_dpos);
    let w = without_jitters(s, min_dt, min_dpos);
    lemma_jitter_filtered(s, n, min_dt, min_dpos);
    assert(s[n - 1].at < s[n as int].at);
    assert(w == f.push(s.last()));
    assert forall|j: int| 0 < j < w.len() - 1 implies (#[trigger] w[j]).at - w[j - 1].at >= min_dt
        || w[j].pos - w[j - 1].pos > min_dpos || w[j - 1].pos - w[j].pos > min_dpos by {
        lemma_kept_moves(s, n, min_dt, min_dpos, j);
        assert(w[j] == f[j] && w[j - 1] == f[j - 1]);
    }
    assert forall|i: int| 0 <= i < s.len() implies w.contains(#[trigger] s[i])
        || hardly_moves_after(w, s[i], min_dt, min_dpos) by {
        if i == s.len() - 1 {
            assert(w[w.len() - 1] == s[i]);
        } else {
            lemma_gone_hardly_moves(s, n, min_dt, min_dpos, i);
            assert(s[i].at < s[s.len() - 1].at);
            lemma_hardly_moves_pushed(f, s[i], s.last(), min_dt, min_dpos);
        }
    }
}

proof fn lemma_hardly_moves_pushed(
    f: Seq<Action>,
    a: Action,
    next: Action,
    min_dt: int,
    min_dpos: int,
)
    requires
        f.contains(a) || hardly_moves_after(f, a, min_dt, min_dpos),
        a.at < next.at,
    ensures
        f.push(next).contains(a) || hardly_moves_after(f.push(next), a, min_dt, min_dpos),
{
    let w = f.push(next);
    if f.contains(a) {
        let j = choose|j: int| 0 <= j < f.len() && f[j] == a;
        assert(w[j] == a);
    } else {
        let k = choose|k: int|
            {
                &&& 0 <= k < f.len()
                &&& (#[trigger] f[k]).at < a.at
                &&& k + 1 < f.len() ==> a.at < f[k + 1].at
                &&& a.at - f[k].at < min_dt
                &&& -min_dpos <= a.pos - f[k].pos <= min_dpos
            };
        assert(w[k] == f[k]);
    }
}

proof fn lemma_kept_moves(s: Seq<Action>, n: nat, min_dt: int, min_dpos: int, k: int)
    requires
        1 <= n <= s.len(),
        0 < k < jitter_filtered(s, n, min_dt, min_dpos).len(),
    ensures
        ({
            let f = jitter_filtered(s, n, min_dt, min_dpos);
            f[k].at - f[k - 1].at >= min_dt || f[k].pos - f[k - 1].pos > min_dpos || f[k - 1].pos
                - f[k].pos > min_dpos
        }),
    decreases n,
{
    if n > 1 {
        let p = jitter_filtered(s, (n - 1) as nat, min_dt, min_dpos);
        if k < p.len() {
            lemma_kept_moves(s, (n - 1) as nat, min_dt, min_dpos, k);
        }
    }
}

proof fn lemma_gone_hardly_moves(s: Seq<Action>, n: nat, min_dt: int, min_dpos: int, i: int)
    requires
        0 <= i < n <= s.len(),
        strictly_timed(s),
    ensures
        jitter_filtered(s, n, min_dt, min_dpos).contains(s[i]) || hardly_moves_after(
            jitter_filtered(s, n, min_dt, min_dpos),
            s[i],
            min_dt,
            min_dpos,
        ),
    decreases n,
{
    let f = jitter_filtered(s, n, min_dt, min_dpos);
    if n <= 1 {
        assert(f[0] == s[0]);
    } else {
        let p = jitter_filtered(s, (n - 1) as nat, min_dt, min_dpos);
        lemma_jitter_filtered(s, (n - 1) as nat, min_dt, min_dpos);
        assert(s[n - 2].at < s[n - 1].at);
        if i < n - 1 {
            lemma_gone_hardly_moves(s, (n - 1) as nat, min_dt, min_dpos, i);
            assert(s[i].at < s[n - 1].at);
            lemma_hardly_moves_pushed(p, s[i], s[n - 1], min_dt, min_dpos);
        } else if f.len() > p.len() {
            assert(f[p.len() as int] == s[i]);
        } else {
            assert(f[p.len() - 1] == p.last());
        }
    }
}

/// A repair of the speeds moves as few keyframes as little as it can: the first stays,
/// and each other one is where it was if there is time for that from the repaired one
/// before it. Otherwise it stands on the side of that one on which it was, as far away
/// as there is time for and no unit further.
pub proof fn lemma_speed_fix_is_exact(s: Seq<Action>, limit: int)
    requires
        strictly_timed(s),
        positions_valid(s),
        s.len() >= 1,
        limit >= 0,
    ensures
        ({
            let a = limited_actions(s, allowed_moves(s, limit));
            &&& a.len() == s.len()
            &&& a[0] == s[0]
            &&& forall|i: int|
                0 < i < s.len() ==> {
                    let dt = s[i].at - s[i - 1].at;
                    let wanted = s[i].pos - a[i - 1].pos;
                    let made = (#[trigger] a[i]).pos - a[i - 1].pos;
                    &&& a[i].at == s[i].at
                    &&& wanted * 1_000_000 <= limit * dt && -wanted * 1_000_000 <= limit * dt
                        ==> made == wanted
                    &&& wanted * 1_000_000 > limit * dt ==> 0 <= made < wanted && made * 1_000_000
                        <= limit * dt < (made + 1) * 1_000_000
                    &&& -wanted * 1_000_000 > limit * dt ==> wanted < made <= 0 && -made
                        * 1_000_000 <= limit * dt < (1 - made) * 1_000_000
                }
        }),
{
    let allowed = allowed_moves(s, limit);
    let a = limited_actions(s, allowed);
    lemma_speed_made_safe(s, limit);
    lemma_speed_limited(s, allowed);
    assert(a[0] == s[0]) by {
        assert(0 <= s[0].pos <= 100);
    }
    assert forall|i: int| 0 < i < s.len() implies {
        let dt = s[i].at - s[i - 1].at;
        let wanted = s[i].pos - a[i - 1].pos;
        let made = (#[trigger] a[i]).pos - a[i - 1].pos;
        &&& a[i].at == s[i].at
        &&& wanted * 1_000_000 <= limit * dt && -wanted * 1_000_000 <= limit * dt ==> made
            == wanted
        &&& wanted * 1_000_000 > limit * dt ==> 0 <= made < wanted && made * 1_000_000 <= limit
            * dt < (made + 1) * 1_000_000
        &&& -wanted * 1_000_000 > limit * dt ==> wanted < made <= 0 && -made * 1_000_000 <= limit
            * dt < (1 - made) * 1_000_000
    } by {
        assert(s[i - 1].at < s[i].at);
        let dt = s[i].at - s[i - 1].at;
        let reach = limit * dt;
        assert(reach >= 0) by (nonlinear_arith)
            requires
                reach == limit * dt,
                limit >= 0,
                dt >= 0,
        ;
        assert(0 <= s[i].pos <= 100);
        assert(0 <= limited_pos(s, allowed, (i - 1) as nat) <= 100);
        assert(0 <= limited_pos(s, allowed, i as nat) <= 100);
        assert(allowed[i - 1] == allowed_move(limit, dt));
    }
}

/// The keyframes below `n` that have another position once their moves are limited.
pub open spec fn moved_places(s: Seq<Action>, allowed: Seq<i32>, n: nat) -> Set<int> {
    Set::new(|i: int| 0 <= i < n && limited_actions(s, allowed)[i].pos != s[i].pos)
}

proof fn lemma_moved_one(s: Seq<Action>, allowed: Seq<i32>, i: int)
    requires
        positions_valid(s),
        0 <= i < s.len(),
        allowed.len() + 1 >= s.len(),
        forall|k: int| 0 <= k < allowed.len() ==> #[trigger] allowed[k] >= 0,
    ensures
        i == 0 ==> limited_actions(s, allowed)[i].pos == s[i].pos,
        i > 0 ==> (limited_actions(s, allowed)[i].pos != s[i].pos <==> exceeds(
            limited_pos(s, allowed, (i - 1) as nat),
            s[i].pos as int,
            allowed[i - 1] as int,
        )),
{
    lemma_limited_valid(s, allowed, i as nat);
    assert(0 <= s[i].pos <= 100);
}

/// As many keyframes are counted as moved as have another position afterwards.
pub proof fn lemma_moved_are_counted(s: Seq<Action>, allowed: Seq<i32>, n: nat)
    requires
        positions_valid(s),
        1 <= n <= s.len(),
        allowed.len() + 1 >= s.len(),
        forall|i: int| 0 <= i < allowed.len() ==> #[trigger] allowed[i] >= 0,
    ensures
        moved_places(s, allowed, n).finite(),
        moved_count(s, allowed, n) == moved_places(s, allowed, n).len(),
    decreases n,
{
    let moved = moved_places(s, allowed, n);
    lemma_moved_one(s, allowed, n - 1);
    if n == 1 {
        assert(moved =~= Set::empty());
    } else {
        let fewer = moved_places(s, allowed, (n - 1) as nat);
        lemma_moved_are_counted(s, allowed, (n - 1) as nat);
        if limited_actions(s, allowed)[n - 1].pos != s[n - 1].pos {
            assert(moved =~= fewer.insert(n - 1));
        } else {
            assert(moved =~= fewer);
        }
    }
}

/// Repairing the speeds of an inverted script gives the repaired script inverted.
pub proof fn lemma_speed_fix_of_inverted(s: Seq<Action>, limit: int)
    requires
        strictly_timed(s),
        positions_valid(s),
        s.len() >= 1,
        limit >= 0,
    ensures
        limited_actions(inverted(s), allowed_moves(inverted(s), limit)) == inverted(
            limited_actions(s, allowed_moves(s, limit)),
        ),
{
    let t = inverted(s);
    let allowed = allowed_moves(s, limit);
    assert(allowed_moves(t, limit) =~= allowed);
    lemma_speed_made_safe(s, limit);
    lemma_speed_limited(s, allowed);
    let a = limited_actions(t, allowed);
    let b = inverted(limited_actions(s, allowed));
    assert forall|i: int| 0 <= i < s.len() implies a[i] == b[i] by {
        lemma_limited_inverted(s, allowed, i as nat);
        assert(0 <= limited_pos(s, allowed, i as nat) <= 100);
    }
    assert(a =~= b);
}

proof fn lemma_limited_inverted(s: Seq<Action>, allowed: Seq<i32>, i: nat)
    requires
        positions_valid(s),
        i < s.len(),
        i <= allowed.len(),
        forall|k: int| 0 <= k < allowed.len() ==> #[trigger] allowed[k] >= 0,
    ensures
        limited_pos(inverted(s), allowed, i) == 100 - limited_pos(s, allowed, i),
    decreases i,
{
    assert(0 <= s[i as int].pos <= 100);
    assert(inverted(s)[i as int].pos == 100 - s[i as int].pos);
    if i > 0 {
        lemma_limited_inverted(s, allowed, (i - 1) as nat);
        assert(allowed[i - 1] >= 0);
    }
}

/// A script of version 1.0 of these keyframes, in proper form.
pub open spec fn script_of(actions: Seq<Action>) -> FunscriptView {
    FunscriptView { version: "1.0"@, actions: sanitized(actions), metadata: None }
}

pub(crate) fn make_script(actions: Vec<Action>) -> (res: Funscript)
    ensures
        res@ == script_of(actions@),
{
    let mut script = Funscript::new(actions);
    script.sanitize();
    script
}

/// A script made of keyframes holds them in proper form, is of version 1.0, and has no
/// metadata.
pub proof fn lemma_script_of(actions: Seq<Action>)
    ensures
        script_of(actions).actions == sanitized(actions),
        script_of(actions).version == "1.0"@,
        script_of(actions).metadata is None,
{
}

/// A position is brought into the range of 0 to 100, and stays as it is within.
pub proof fn lemma_clamped(p: i32)
    ensures
        0 <= p <= 100 ==> clamped(p) == p,
        p < 0 ==> clamped(p) == 0,
        p > 100 ==> clamped(p) == 100,
{
}

} // verus!
