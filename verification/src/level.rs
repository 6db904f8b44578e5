//! Measured quantities, by their order.
use vstd::prelude::*;

verus! {

/// A measured quantity, as a whole number that orders as the quantity does:
/// of two quantities the larger one has the larger key, and equal quantities
/// have equal keys.
#[derive(Debug, Clone, Copy, PartialEq, Eq, PartialOrd, Ord, Hash, Structural)]
pub struct Level {
    pub key: i64,
}

impl Level {
    pub fn new(key: i64) -> (res: Self)
        ensures
            res.key == key,
    {
        Level { key }
    }

    /// Whether the quantity is larger than another.
    pub fn above(&self, other: Level) -> (res: bool)
        ensures
            res == (self.key > other.key),
    {
        self.key > other.key
    }

    /// Whether the quantity is smaller than another.
    pub fn below(&self, other: Level) -> (res: bool)
        ensures
            res == (self.key < other.key),
    {
        self.key < other.key
    }
}

/// The first place among `levels` that no other place exceeds.
pub open spec fn is_first_peak(levels: Seq<Level>, i: int) -> bool {
    &&& 0 <= i < levels.len()
    &&& forall|k: int| 0 <= k < levels.len() ==> (#[trigger] levels[k]).key <= levels[i].key
    &&& forall|k: int| 0 <= k < i ==> (#[trigger] levels[k]).key < levels[i].key
}

/// The last place among `levels` that no other place exceeds.
pub open spec fn is_last_peak(levels: Seq<Level>, i: int) -> bool {
    &&& 0 <= i < levels.len()
    &&& forall|k: int| 0 <= k < levels.len() ==> (#[trigger] levels[k]).key <= levels[i].key
    &&& forall|k: int| i < k < levels.len() ==> (#[trigger] levels[k]).key < levels[i].key
}

/// The place of the largest level, the last one among equals.
pub fn last_peak(levels: &Vec<Level>) -> (res: Option<usize>)
    ensures
        res is None <==> levels.len() == 0,
        res matches Some(i) ==> is_last_peak(levels@, i as int),
{
    if levels.len() == 0 {
        return None;
    }
    let mut best: usize = 0;
    let mut i: usize = 1;
    while i < levels.len()
        invariant
            best < i <= levels.len(),
            forall|k: int| 0 <= k < i ==> (#[trigger] levels@[k]).key <= levels@[best as int].key,
            forall|k: int| best < k < i ==> (#[trigger] levels@[k]).key < levels@[best as int].key,
        decreases levels.len() - i,
    {
        if levels[i].key >= levels[best].key {
            best = i;
        }
        i += 1;
    }
    Some(best)
}

/// The place of the largest level, the first one among equals.
pub fn first_peak(levels: &Vec<Level>) -> (res: Option<usize>)
    ensures
        res is None <==> levels.len() == 0,
        res matches Some(i) ==> is_first_peak(levels@, i as int),
{
    if levels.len() == 0 {
        return None;
    }
    let mut best: usize = 0;
    let mut i: usize = 1;
    while i < levels.len()
        invariant
            best < i <= levels.len(),
            forall|k: int| 0 <= k < i ==> (#[trigger] levels@[k]).key <= levels@[best as int].key,
            forall|k: int| 0 <= k < best ==> (#[trigger] levels@[k]).key < levels@[best as int].key,
        decreases levels.len() - i,
    {
        if levels[i].key > levels[best].key {
            best = i;
        }
        i += 1;
    }
    Some(best)
}

/// Levels never decrease along the list.
pub open spec fn ascending(s: Seq<Level>) -> bool {
    forall|i: int, j: int| 0 <= i <= j < s.len() ==> s[i].key <= s[j].key
}

/// `s`, which ascends, with `a` put behind everything that is not above it.
pub open spec fn level_inserted(s: Seq<Level>, a: Level) -> Seq<Level>
    decreases s.len(),
{
    if s.len() == 0 || s.last().key <= a.key {
        s.push(a)
    } else {
        level_inserted(s.drop_last(), a).push(s.last())
    }
}

/// The levels of `s` in ascending order.
pub open spec fn sorted_levels(s: Seq<Level>) -> Seq<Level>
    decreases s.len(),
{
    if s.len() == 0 {
        s
    } else {
        level_inserted(sorted_levels(s.drop_last()), s.last())
    }
}

proof fn lemma_level_inserted(s: Seq<Level>, a: Level)
    requires
        ascending(s),
    ensures
        ascending(level_inserted(s, a)),
        level_inserted(s, a).to_multiset() == s.to_multiset().insert(a),
        level_inserted(s, a).len() == s.len() + 1,
        s.len() > 0 ==> level_inserted(s, a).last().key == (if s.last().key > a.key {
            s.last().key
        } else {
            a.key
        }),
    decreases s.len(),
{
    broadcast use vstd::seq_lib::group_to_multiset_ensures;

    let r = level_inserted(s, a);
    if s.len() > 0 && s.last().key > a.key {
        let p = s.drop_last();
        lemma_level_inserted(p, a);
        let w = level_inserted(p, a);
        assert(s =~= p.push(s.last()));
        assert(w.to_multiset().insert(s.last()) =~= s.to_multiset().insert(a));
        assert(w[w.len() - 1].key <= s.last().key) by {
            if p.len() > 0 {
                assert(s[p.len() - 1].key <= s[s.len() - 1].key);
            } else {
                assert(w =~= seq![a]);
            }
        }
        assert forall|i: int, j: int| 0 <= i <= j < r.len() implies r[i].key <= r[j].key by {
            if j == w.len() && i < w.len() {
                assert(w[i].key <= w[w.len() - 1].key);
            }
        }
    } else {
        assert forall|i: int, j: int| 0 <= i <= j < r.len() implies r[i].key <= r[j].key by {
            if j == s.len() && i < s.len() {
                assert(s[i].key <= s[s.len() - 1].key);
            }
        }
    }
}

/// Sorting orders the levels and neither adds nor drops any.
pub proof fn lemma_sorted_levels(s: Seq<Level>)
    ensures
        ascending(sorted_levels(s)),
        sorted_levels(s).to_multiset() == s.to_multiset(),
        sorted_levels(s).len() == s.len(),
    decreases s.len(),
{
    broadcast use vstd::seq_lib::group_to_multiset_ensures;

    if s.len() > 0 {
        lemma_sorted_levels(s.drop_last());
        lemma_level_inserted(sorted_levels(s.drop_last()), s.last());
        assert(s =~= s.drop_last().push(s.last()));
    }
}

proof fn lemma_level_inserted_at(s: Seq<Level>, a: Level, pos: int)
    requires
        0 <= pos <= s.len(),
        forall|i: int| 0 <= i < pos ==> (#[trigger] s[i]).key <= a.key,
        forall|i: int| pos <= i < s.len() ==> (#[trigger] s[i]).key > a.key,
    ensures
        level_inserted(s, a) == s.insert(pos, a),
    decreases s.len(),
{
    if s.len() == 0 || s.last().key <= a.key {
        if pos < s.len() {
            assert(s[s.len() - 1].key > a.key);
        }
        assert(s.insert(pos, a) =~= s.push(a));
    } else {
        assert(pos < s.len());
        lemma_level_inserted_at(s.drop_last(), a, pos);
        assert(s.drop_last().insert(pos, a).push(s.last()) =~= s.insert(pos, a));
    }
}

/// The levels `values[start..end]` in ascending order.
pub fn sort_range(values: &Vec<Level>, start: usize, end: usize) -> (res: Vec<Level>)
    requires
        start <= end <= values.len(),
    ensures
        res@ == sorted_levels(values@.subrange(start as int, end as int)),
        res.len() == end - start,
{
    let mut res: Vec<Level> = Vec::new();
    let mut i: usize = start;
    assert(values@.subrange(start as int, start as int) =~= Seq::empty());
    while i < end
        invariant
            start <= i <= end <= values.len(),
            res@ == sorted_levels(values@.subrange(start as int, i as int)),
            res.len() == i - start,
        decreases end - i,
    {
        let a: Level = values[i];
        proof {
            lemma_sorted_levels(values@.subrange(start as int, i as int));
            assert(values@.subrange(start as int, i + 1).drop_last() =~= values@.subrange(
                start as int,
                i as int,
            ));
        }
        let mut lo: usize = 0;
        let mut hi: usize = res.len();
        while lo < hi
            invariant
                lo <= hi <= res.len(),
                ascending(res@),
                forall|k: int| 0 <= k < lo ==> (#[trigger] res@[k]).key <= a.key,
                forall|k: int| hi <= k < res.len() ==> (#[trigger] res@[k]).key > a.key,
            decreases hi - lo,
        {
            let mid: usize = lo + (hi - lo) / 2;
            if res[mid].key <= a.key {
                lo = mid + 1;
            } else {
                hi = mid;
            }
        }
        proof {
            lemma_level_inserted_at(res@, a, lo as int);
        }
        res.insert(lo, a);
        i += 1;
    }
    res
}

/// The level three quarters up the ascending order, if there is any level.
pub fn upper_quartile(values: &Vec<Level>) -> (res: Option<Level>)
    requires
        values.len() * 3 <= usize::MAX,
    ensures
        res == (if values.len() == 0 {
            None
        } else {
            Some(sorted_levels(values@)[values.len() * 3 / 4])
        }),
{
    let n: usize = values.len();
    if n == 0 {
        return None;
    }
    let sorted: Vec<Level> = sort_range(values, 0, n);
    assert(values@.subrange(0, n as int) =~= values@);
    Some(sorted[n * 3 / 4])
}

/// No level exceeds that of a peak. The last peak exceeds every later level, the first every
/// earlier one, so there is only one of each.
pub proof fn lemma_peaks(levels: Seq<Level>, i: int, k: int)
    requires
        0 <= k < levels.len(),
    ensures
        is_last_peak(levels, i) ==> 0 <= i < levels.len() && levels[k].key <= levels[i].key && (k > i
            ==> levels[k].key < levels[i].key),
        is_first_peak(levels, i) ==> 0 <= i < levels.len() && levels[k].key <= levels[i].key && (k < i
            ==> levels[k].key < levels[i].key),
        is_last_peak(levels, i) && is_last_peak(levels, k) ==> i == k,
        is_first_peak(levels, i) && is_first_peak(levels, k) ==> i == k,
{
    if is_last_peak(levels, i) || is_first_peak(levels, i) {
        assert(levels[i].key <= levels[i].key);
        assert(levels[k].key <= levels[i].key);
    }
}

} // verus!
