//! Direct decoding of detectors that need no suppression of overlapping boxes,
//! and assembly of instance masks.
use crate::level::Level;
use vstd::arithmetic::mul::lemma_mul_inequality;
use vstd::multiset::Multiset;
use vstd::prelude::*;

verus! {

/// Tensor memory layout of the NMS-free model output
#[derive(Debug, Clone, Copy, PartialEq, Eq, Structural)]
pub enum DirectTensorLayout {
    /// Queries first: shape [1, num_queries, 4 + num_classes (+ num_masks)] (e.g. RF-DETR, YOLO26 standard export)
    QueryMajor,
    /// Channels first: shape [1, 4 + num_classes (+ num_masks), num_queries] (e.g. transposed ONNX export)
    ChannelMajor,
}

/// How the four numbers of a box are to be read.
#[derive(Debug, Clone, Copy, PartialEq, Eq, Structural)]
pub enum BoxFormat {
    /// Corners out of order: each is clamped to the image
    Disordered,
    /// Two corners inside the image, taken as they are
    Corners,
    /// Center and size, turned into corners clamped to the image
    CenterSize,
}

/// The shape of a detector's output.
#[derive(Debug, Clone, Copy, PartialEq, Eq, Structural)]
pub struct TensorShape {
    pub num_queries: usize,
    pub num_classes: usize,
    pub num_mask_coeffs: usize,
    pub layout: DirectTensorLayout,
}

impl TensorShape {
    /// How many numbers one query has.
    pub open spec fn stride(self) -> int {
        4 + self.num_classes + self.num_mask_coeffs
    }

    /// How many numbers the output has.
    pub open spec fn size(self) -> int {
        self.num_queries * self.stride()
    }

    /// Where channel `channel` of query `q` stands in the output.
    pub open spec fn slot(self, q: int, channel: int) -> int {
        match self.layout {
            DirectTensorLayout::QueryMajor => q * self.stride() + channel,
            DirectTensorLayout::ChannelMajor => channel * self.num_queries + q,
        }
    }

    fn slot_of(&self, q: usize, channel: usize) -> (i: usize)
        requires
            q < self.num_queries,
            channel < self.stride(),
            self.size() <= usize::MAX,
        ensures
            i == self.slot(q as int, channel as int),
            i < self.size(),
    {
        proof {
            lemma_slot_bound(*self, q as int, channel as int);
        }
        match self.layout {
            DirectTensorLayout::QueryMajor => {
                proof {
                    lemma_mul_inequality(q as int, self.num_queries as int, self.stride());
                    assert(self.stride() <= self.size()) by (nonlinear_arith)
                        requires
                            self.num_queries >= 1,
                            self.stride() >= 4,
                            self.size() == self.num_queries * self.stride(),
                    ;
                    assert(0 <= q * self.stride()) by (nonlinear_arith)
                        requires
                            q >= 0,
                            self.stride() >= 4,
                    ;
                }
                let stride: usize = 4 + self.num_classes + self.num_mask_coeffs;
                q * stride + channel
            },
            DirectTensorLayout::ChannelMajor => {
                proof {
                    assert(0 <= channel * self.num_queries) by (nonlinear_arith)
                        requires
                            channel >= 0,
                            self.num_queries >= 0,
                    ;
                }
                channel * self.num_queries + q
            },
        }
    }
}

/// Every slot of a query lies inside the output.
pub proof fn lemma_slot_bound(shape: TensorShape, q: int, channel: int)
    requires
        0 <= q < shape.num_queries,
        0 <= channel < shape.stride(),
    ensures
        0 <= shape.slot(q, channel) < shape.size(),
{
    let n = shape.num_queries as int;
    let w = shape.stride();
    assert(0 <= q * w + channel < n * w) by (nonlinear_arith)
        requires
            0 <= q < n,
            0 <= channel < w,
    ;
    assert(0 <= channel * n + q < n * w) by (nonlinear_arith)
        requires
            0 <= q < n,
            0 <= channel < w,
    ;
}

/// The class with the largest score of the first `c` classes of query `q`, the
/// first one among equals, and that score; class 0 and `zero` where none is
/// above `zero`.
pub open spec fn best_class(
    probs: Seq<Level>,
    shape: TensorShape,
    zero: Level,
    q: int,
    c: nat,
) -> (int, Level)
    decreases c,
{
    if c == 0 {
        (0, zero)
    } else {
        let best = best_class(probs, shape, zero, q, (c - 1) as nat);
        let prob = probs[shape.slot(q, 4 + c - 1)];
        if prob.key > best.1.key {
            (c - 1, prob)
        } else {
            best
        }
    }
}

/// How the box of these four numbers is to be read.
pub open spec fn format_of_box(
    x1: Level,
    y1: Level,
    x2: Level,
    y2: Level,
    zero: Level,
    one: Level,
) -> BoxFormat {
    if x2.key < x1.key || y2.key < y1.key {
        BoxFormat::Disordered
    } else if x2.key <= one.key && y2.key <= one.key && x1.key >= zero.key && y1.key >= zero.key {
        BoxFormat::Corners
    } else {
        BoxFormat::CenterSize
    }
}

/// NMS-free detection candidate. Its box and mask coefficients are given by
/// where they stand in the detector's output.
#[derive(Debug)]
pub struct DirectDetection {
    pub class_id: usize,
    pub class_name: String,
    pub confidence: Level,
    pub query: usize,
    pub box_format: BoxFormat,
    pub box_slots: Vec<usize>,
    pub mask_slots: Option<Vec<usize>>,
}

/// The contents of a [`DirectDetection`].
#[verifier::ext_equal]
pub struct DetectionView {
    pub class_id: int,
    pub class_name: Seq<char>,
    pub confidence: Level,
    pub query: int,
    pub box_format: BoxFormat,
    pub box_slots: Seq<usize>,
    pub mask_slots: Option<Seq<usize>>,
}

impl View for DirectDetection {
    type V = DetectionView;

    open spec fn view(&self) -> DetectionView {
        DetectionView {
            class_id: self.class_id as int,
            class_name: self.class_name@,
            confidence: self.confidence,
            query: self.query as int,
            box_format: self.box_format,
            box_slots: self.box_slots@,
            mask_slots: match self.mask_slots {
                Some(v) => Some(v@),
                None => None,
            },
        }
    }
}

/// The name of a class, `unknown` where it has none.
pub open spec fn class_label(names: Seq<String>, class: int) -> Seq<char> {
    if 0 <= class < names.len() {
        names[class]@
    } else {
        "unknown"@
    }
}

/// The name of a class, `unknown` where it has none.
pub fn class_name_of(names: &Vec<String>, class: usize) -> (name: String)
    ensures
        name@ == class_label(names@, class as int),
{
    if class < names.len() {
        names[class].clone()
    } else {
        "unknown".to_owned()
    }
}

/// The slots of `count` channels of query `q` from channel `first` on.
pub open spec fn channel_slots(shape: TensorShape, q: int, first: int, count: nat) -> Seq<usize> {
    Seq::new(count, |k: int| shape.slot(q, first + k) as usize)
}

fn collect_slots(shape: &TensorShape, q: usize, first: usize, count: usize) -> (slots: Vec<usize>)
    requires
        q < shape.num_queries,
        first + count <= shape.stride(),
        shape.size() <= usize::MAX,
        shape.stride() <= usize::MAX,
    ensures
        slots@ == channel_slots(*shape, q as int, first as int, count as nat),
{
    let mut slots: Vec<usize> = Vec::new();
    let mut k: usize = 0;
    while k < count
        invariant
            k <= count,
            q < shape.num_queries,
            first + count <= shape.stride(),
            shape.size() <= usize::MAX,
            shape.stride() <= usize::MAX,
            slots@ == channel_slots(*shape, q as int, first as int, k as nat),
        decreases count - k,
    {
        slots.push(shape.slot_of(q, first + k));
        k += 1;
        assert(slots@ =~= channel_slots(*shape, q as int, first as int, k as nat));
    }
    slots
}

/// The detection of query `q`, if its best score reaches the threshold.
pub open spec fn detection_of(
    raw: Seq<Level>,
    probs: Seq<Level>,
    shape: TensorShape,
    threshold: Level,
    zero: Level,
    one: Level,
    names: Seq<String>,
    q: int,
) -> Option<DetectionView> {
    let (class, score) = best_class(probs, shape, zero, q, shape.num_classes as nat);
    if score.key < threshold.key {
        None
    } else {
        Some(
            DetectionView {
                class_id: class,
                class_name: class_label(names, class),
                confidence: score,
                query: q,
                box_format: format_of_box(
                    raw[shape.slot(q, 0)],
                    raw[shape.slot(q, 1)],
                    raw[shape.slot(q, 2)],
                    raw[shape.slot(q, 3)],
                    zero,
                    one,
                ),
                box_slots: channel_slots(shape, q, 0, 4),
                mask_slots: if shape.num_mask_coeffs > 0 {
                    Some(
                        channel_slots(
                            shape,
                            q,
                            4 + shape.num_classes,
                            shape.num_mask_coeffs as nat,
                        ),
                    )
                } else {
                    None
                },
            },
        )
    }
}

/// `s`, which descends in confidence, with `d` put behind everything that is at
/// least as confident.
pub open spec fn ranked_with(s: Seq<DetectionView>, d: DetectionView) -> Seq<DetectionView>
    decreases s.len(),
{
    if s.len() == 0 || s.last().confidence.key >= d.confidence.key {
        s.push(d)
    } else {
        ranked_with(s.drop_last(), d).push(s.last())
    }
}

/// The detections of the first `n` queries by descending confidence; among
/// equally confident ones the earlier query comes first.
pub open spec fn ranked_detections(
    raw: Seq<Level>,
    probs: Seq<Level>,
    shape: TensorShape,
    threshold: Level,
    zero: Level,
    one: Level,
    names: Seq<String>,
    n: nat,
) -> Seq<DetectionView>
    decreases n,
{
    if n == 0 {
        Seq::empty()
    } else {
        let earlier = ranked_detections(
            raw,
            probs,
            shape,
            threshold,
            zero,
            one,
            names,
            (n - 1) as nat,
        );
        match detection_of(raw, probs, shape, threshold, zero, one, names, n - 1) {
            Some(d) => ranked_with(earlier, d),
            None => earlier,
        }
    }
}

/// Confidence never increases along the list.
pub open spec fn descending(s: Seq<DetectionView>) -> bool {
    forall|i: int, j: int|
        0 <= i <= j < s.len() ==> s[i].confidence.key >= s[j].confidence.key
}

proof fn lemma_ranked_with(s: Seq<DetectionView>, d: DetectionView)
    requires
        descending(s),
    ensures
        descending(ranked_with(s, d)),
        ranked_with(s, d).to_multiset() == s.to_multiset().insert(d),
        ranked_with(s, d).len() == s.len() + 1,
    decreases s.len(),
{
    broadcast use vstd::seq_lib::group_to_multiset_ensures;

    let r = ranked_with(s, d);
    if s.len() == 0 || s.last().confidence.key >= d.confidence.key {
        assert(r == s.push(d));
        assert forall|i: int, j: int| 0 <= i <= j < r.len() implies r[i].confidence.key
            >= r[j].confidence.key by {
            if j == s.len() && i < s.len() {
                assert(s[i].confidence.key >= s[s.len() - 1].confidence.key);
            }
        }
    } else {
        let p = s.drop_last();
        let w = ranked_with(p, d);
        lemma_ranked_with(p, d);
        assert(s =~= p.push(s.last()));
        assert(r == w.push(s.last()));
        assert(w.to_multiset().insert(s.last()) =~= s.to_multiset().insert(d));
        lemma_ranked_with_floor(p, d, s.last().confidence.key as int);
        assert forall|i: int, j: int| 0 <= i <= j < r.len() implies r[i].confidence.key
            >= r[j].confidence.key by {
            if j == w.len() && i < w.len() {
                assert(w[i].confidence.key >= s.last().confidence.key);
            }
        }
    }
}

proof fn lemma_ranked_with_floor(s: Seq<DetectionView>, d: DetectionView, k: int)
    requires
        d.confidence.key >= k,
        forall|i: int| 0 <= i < s.len() ==> (#[trigger] s[i]).confidence.key >= k,
    ensures
        forall|i: int|
            0 <= i < ranked_with(s, d).len() ==> (#[trigger] ranked_with(
                s,
                d,
            )[i]).confidence.key >= k,
    decreases s.len(),
{
    let r = ranked_with(s, d);
    if s.len() == 0 || s.last().confidence.key >= d.confidence.key {
        assert forall|i: int| 0 <= i < r.len() implies (#[trigger] r[i]).confidence.key >= k by {
            if i < s.len() {
                assert(r[i] == s[i]);
            }
        }
    } else {
        let p = s.drop_last();
        lemma_ranked_with_floor(p, d, k);
        assert forall|i: int| 0 <= i < r.len() implies (#[trigger] r[i]).confidence.key >= k by {
            if i < r.len() - 1 {
                assert(r[i] == ranked_with(p, d)[i]);
            } else {
                assert(r[i] == s[s.len() - 1]);
            }
        }
    }
}

/// The detections of the first `n` queries, as a multiset.
pub open spec fn all_detections(
    raw: Seq<Level>,
    probs: Seq<Level>,
    shape: TensorShape,
    threshold: Level,
    zero: Level,
    one: Level,
    names: Seq<String>,
    n: nat,
) -> Multiset<DetectionView>
    decreases n,
{
    if n == 0 {
        Multiset::empty()
    } else {
        let earlier = all_detections(
            raw,
            probs,
            shape,
            threshold,
            zero,
            one,
            names,
            (n - 1) as nat,
        );
        match detection_of(raw, probs, shape, threshold, zero, one, names, n - 1) {
            Some(d) => earlier.insert(d),
            None => earlier,
        }
    }
}

/// The ranked list holds each detection once and descends in confidence.
pub proof fn lemma_ranked_detections(
    raw: Seq<Level>,
    probs: Seq<Level>,
    shape: TensorShape,
    threshold: Level,
    zero: Level,
    one: Level,
    names: Seq<String>,
    n: nat,
)
    ensures
        descending(ranked_detections(raw, probs, shape, threshold, zero, one, names, n)),
        ranked_detections(raw, probs, shape, threshold, zero, one, names, n).to_multiset()
            == all_detections(raw, probs, shape, threshold, zero, one, names, n),
    decreases n,
{
    broadcast use vstd::seq_lib::group_to_multiset_ensures;

    if n > 0 {
        let k = (n - 1) as nat;
        lemma_ranked_detections(raw, probs, shape, threshold, zero, one, names, k);
        let earlier = ranked_detections(raw, probs, shape, threshold, zero, one, names, k);
        if let Some(d) = detection_of(raw, probs, shape, threshold, zero, one, names, n - 1) {
            lemma_ranked_with(earlier, d);
        }
    } else {
        assert(ranked_detections(raw, probs, shape, threshold, zero, one, names, n).to_multiset()
            =~= Multiset::empty());
    }
}

/// The contents of a list of detections.
pub open spec fn detection_views(s: Seq<DirectDetection>) -> Seq<DetectionView> {
    s.map_values(|d: DirectDetection| d@)
}

proof fn lemma_ranked_with_at(s: Seq<DetectionView>, d: DetectionView, pos: int)
    requires
        0 <= pos <= s.len(),
        pos > 0 ==> s[pos - 1].confidence.key >= d.confidence.key,
        forall|i: int| pos <= i < s.len() ==> (#[trigger] s[i]).confidence.key < d.confidence.key,
    ensures
        ranked_with(s, d) == s.insert(pos, d),
    decreases s.len(),
{
    if s.len() == 0 || s.last().confidence.key >= d.confidence.key {
        if pos < s.len() {
            assert(s[s.len() - 1].confidence.key < d.confidence.key);
        }
        assert(s.insert(pos, d) =~= s.push(d));
    } else {
        let p = s.drop_last();
        lemma_ranked_with_at(p, d, pos);
        assert(p.insert(pos, d).push(s.last()) =~= s.insert(pos, d));
    }
}

fn insert_ranked(list: &mut Vec<DirectDetection>, d: DirectDetection)
    ensures
        detection_views(final(list)@) == ranked_with(detection_views(old(list)@), d@),
{
    let mut pos: usize = list.len();
    let ghost views = detection_views(list@);
    while pos > 0 && list[pos - 1].confidence.below(d.confidence)
        invariant
            pos <= list.len(),
            list == old(list),
            views == detection_views(list@),
            forall|i: int|
                pos <= i < views.len() ==> (#[trigger] views[i]).confidence.key < d.confidence.key,
        decreases pos,
    {
        pos -= 1;
    }
    proof {
        lemma_ranked_with_at(views, d@, pos as int);
    }
    list.insert(pos, d);
    assert(detection_views(list@) =~= views.insert(pos as int, d@));
}

/// Decodes NMS-free one-to-one predictions directly into filtered detections.
///
/// `raw` holds the numbers of the detector's output and `probs` the
/// probabilities that they stand for when read as class scores; `zero` and
/// `one` are the levels of 0 and 1.
pub fn decode_nms_free_detections(
    raw: &Vec<Level>,
    probs: &Vec<Level>,
    shape: TensorShape,
    conf_threshold: Level,
    zero: Level,
    one: Level,
    class_names: &Vec<String>,
) -> (detections: Vec<DirectDetection>)
    requires
        raw.len() == probs.len(),
        shape.stride() <= usize::MAX,
        shape.size() <= usize::MAX,
    ensures
        raw.len() < shape.size() ==> detections.len() == 0,
        raw.len() >= shape.size() ==> detection_views(detections@) == ranked_detections(
            raw@,
            probs@,
            shape,
            conf_threshold,
            zero,
            one,
            class_names@,
            shape.num_queries as nat,
        ),
{
    let mut detections: Vec<DirectDetection> = Vec::new();
    let stride: usize = 4 + shape.num_classes + shape.num_mask_coeffs;
    if raw.len() < shape.num_queries * stride {
        return detections;
    }
    let mut q: usize = 0;
    assert(detection_views(detections@) =~= Seq::empty());
    while q < shape.num_queries
        invariant
            q <= shape.num_queries,
            raw.len() == probs.len(),
            raw.len() >= shape.size(),
            shape.stride() <= usize::MAX,
            shape.size() <= usize::MAX,
            detection_views(detections@) == ranked_detections(
                raw@,
                probs@,
                shape,
                conf_threshold,
                zero,
                one,
                class_names@,
                q as nat,
            ),
        decreases shape.num_queries - q,
    {
        let mut class: usize = 0;
        let mut score: Level = zero;
        let mut c: usize = 0;
        while c < shape.num_classes
            invariant
                c <= shape.num_classes,
                q < shape.num_queries,
                raw.len() == probs.len(),
                raw.len() >= shape.size(),
                shape.stride() <= usize::MAX,
                shape.size() <= usize::MAX,
                (class as int, score) == best_class(probs@, shape, zero, q as int, c as nat),
            decreases shape.num_classes - c,
        {
            let prob: Level = probs[shape.slot_of(q, 4 + c)];
            if prob.above(score) {
                score = prob;
                class = c;
            }
            c += 1;
        }
        if !score.below(conf_threshold) {
            let x1: Level = raw[shape.slot_of(q, 0)];
            let y1: Level = raw[shape.slot_of(q, 1)];
            let x2: Level = raw[shape.slot_of(q, 2)];
            let y2: Level = raw[shape.slot_of(q, 3)];
            let box_format: BoxFormat = if x2.below(x1) || y2.below(y1) {
                BoxFormat::Disordered
            } else if !x2.above(one) && !y2.above(one) && !x1.below(zero) && !y1.below(zero) {
                BoxFormat::Corners
            } else {
                BoxFormat::CenterSize
            };
            let mask_slots: Option<Vec<usize>> = if shape.num_mask_coeffs > 0 {
                Some(collect_slots(&shape, q, 4 + shape.num_classes, shape.num_mask_coeffs))
            } else {
                None
            };
            let detection = DirectDetection {
                class_id: class,
                class_name: class_name_of(class_names, class),
                confidence: score,
                query: q,
                box_format,
                box_slots: collect_slots(&shape, q, 0, 4),
                mask_slots,
            };
            insert_ranked(&mut detections, detection);
        }
        q += 1;
    }
    detections
}

/// With the queries first the channels of a query stand side by side, one query behind the
/// other; with the channels first the queries of a channel do. Every channel of every
/// query has a slot of its own.
pub proof fn lemma_slots(shape: TensorShape, q: int, c: int, p: int, d: int)
    requires
        0 <= q < shape.num_queries,
        0 <= p < shape.num_queries,
        0 <= c < 4 + shape.num_classes + shape.num_mask_coeffs,
        0 <= d < 4 + shape.num_classes + shape.num_mask_coeffs,
    ensures
        shape.slot(0, 0) == 0,
        shape.layout == DirectTensorLayout::QueryMajor ==> shape.slot(q, c) == shape.slot(q, 0) + c
            && shape.slot(q + 1, 0) == shape.slot(q, 0) + 4 + shape.num_classes
            + shape.num_mask_coeffs,
        shape.layout == DirectTensorLayout::ChannelMajor ==> shape.slot(q, c) == shape.slot(0, c)
            + q && shape.slot(0, c + 1) == shape.slot(0, c) + shape.num_queries,
        shape.slot(q, c) == shape.slot(p, d) ==> q == p && c == d,
{
    let w = shape.stride();
    let n = shape.num_queries as int;
    assert(0 * w == 0 && 0 * n == 0) by (nonlinear_arith);
    assert((q + 1) * w == q * w + w && (c + 1) * n == c * n + n) by (nonlinear_arith);
    if q * w + c == p * w + d {
        assert(q == p) by (nonlinear_arith)
            requires
                q * w + c == p * w + d,
                0 <= c < w,
                0 <= d < w,
        ;
    }
    if c * n + q == d * n + p {
        assert(c == d) by (nonlinear_arith)
            requires
                c * n + q == d * n + p,
                0 <= q < n,
                0 <= p < n,
        ;
    }
}

/// The class of a query is one whose score no other class exceeds, the first of such, and
/// its score is that class's; class 0 and zero where no score is above zero.
pub proof fn lemma_best_class(
    probs: Seq<Level>,
    shape: TensorShape,
    zero: Level,
    q: int,
    c: nat,
)
    ensures
        ({
            let (class, score) = best_class(probs, shape, zero, q, c);
            &&& score.key >= zero.key
            &&& forall|k: int|
                0 <= k < c ==> (#[trigger] probs[shape.slot(q, 4 + k)]).key <= score.key
            &&& score.key > zero.key ==> 0 <= class < c && score == probs[shape.slot(q, 4 + class)]
            &&& score.key > zero.key ==> forall|k: int|
                0 <= k < class ==> (#[trigger] probs[shape.slot(q, 4 + k)]).key < score.key
            &&& score.key == zero.key ==> class == 0 && score == zero
        }),
    decreases c,
{
    if c > 0 {
        lemma_best_class(probs, shape, zero, q, (c - 1) as nat);
        let last = shape.slot(q, 4 + c - 1);
        assert(last == shape.slot(q, 4 + (c - 1)));
    }
}

/// A query is detected exactly where a class of it reaches the threshold (or that is not
/// above zero), with the class of the largest score and that score. Its box stands in its
/// first four channels and its mask coefficients behind those of the classes. A box whose
/// second corner lies before its first is out of order, one inside the image is taken as
/// it is, and any other is a center with a size.
pub proof fn lemma_detection_of_query(
    raw: Seq<Level>,
    probs: Seq<Level>,
    shape: TensorShape,
    threshold: Level,
    zero: Level,
    one: Level,
    names: Seq<String>,
    q: int,
)
    ensures
        ({
            let found = detection_of(raw, probs, shape, threshold, zero, one, names, q);
            let x1 = raw[shape.slot(q, 0)].key;
            let y1 = raw[shape.slot(q, 1)].key;
            let x2 = raw[shape.slot(q, 2)].key;
            let y2 = raw[shape.slot(q, 3)].key;
            &&& found is Some <==> threshold.key <= zero.key || exists|k: int|
                0 <= k < shape.num_classes && (#[trigger] probs[shape.slot(q, 4 + k)]).key
                    >= threshold.key
            &&& found matches Some(d) ==> {
                &&& d.query == q
                &&& d.confidence.key >= threshold.key
                &&& d.confidence == zero || d.confidence == probs[shape.slot(q, 4 + d.class_id)]
                &&& forall|k: int|
                    0 <= k < shape.num_classes ==> (#[trigger] probs[shape.slot(q, 4 + k)]).key
                        <= d.confidence.key
                &&& 0 <= d.class_id < names.len() ==> d.class_name == names[d.class_id]@
                &&& d.box_slots.len() == 4
                &&& forall|k: int|
                    0 <= k < 4 ==> #[trigger] d.box_slots[k] == shape.slot(q, k) as usize
                &&& d.mask_slots is Some <==> shape.num_mask_coeffs > 0
                &&& d.mask_slots matches Some(m) ==> m.len() == shape.num_mask_coeffs && forall|
                    k: int,
                |
                    0 <= k < m.len() ==> #[trigger] m[k] == shape.slot(
                        q,
                        4 + shape.num_classes + k,
                    ) as usize
                &&& d.box_format == BoxFormat::Disordered <==> x2 < x1 || y2 < y1
                &&& d.box_format == BoxFormat::Corners <==> zero.key <= x1 <= x2 <= one.key
                    && zero.key <= y1 <= y2 <= one.key
            }
        }),
{
    let c = shape.num_classes as nat;
    lemma_best_class(probs, shape, zero, q, c);
    let (class, score) = best_class(probs, shape, zero, q, c);
    if score.key > zero.key {
        assert(probs[shape.slot(q, 4 + class)].key >= score.key);
    }
}

/// Every query that is detected is in the ranked list, and nothing else is.
pub proof fn lemma_all_queries_ranked(
    raw: Seq<Level>,
    probs: Seq<Level>,
    shape: TensorShape,
    threshold: Level,
    zero: Level,
    one: Level,
    names: Seq<String>,
    n: nat,
    q: int,
)
    requires
        0 <= q < n,
    ensures
        ({
            let list = ranked_detections(raw, probs, shape, threshold, zero, one, names, n);
            let found = detection_of(raw, probs, shape, threshold, zero, one, names, q);
            &&& found matches Some(d) ==> list.contains(d)
            &&& list.len() <= n
        }),
    decreases n,
{
    let b = ranked_detections(raw, probs, shape, threshold, zero, one, names, (n - 1) as nat);
    let last = detection_of(raw, probs, shape, threshold, zero, one, names, n - 1);
    if n > 1 && q < n - 1 {
        lemma_all_queries_ranked(raw, probs, shape, threshold, zero, one, names, (n - 1) as nat, q);
    } else if n > 1 {
        lemma_all_queries_ranked(
            raw,
            probs,
            shape,
            threshold,
            zero,
            one,
            names,
            (n - 1) as nat,
            0,
        );
    }
    if let Some(d) = last {
        lemma_ranked_with_contains(b, d);
    }
}

proof fn lemma_ranked_with_contains(s: Seq<DetectionView>, d: DetectionView)
    ensures
        ranked_with(s, d).len() == s.len() + 1,
        ranked_with(s, d).contains(d),
        forall|e: DetectionView| s.contains(e) ==> #[trigger] ranked_with(s, d).contains(e),
    decreases s.len(),
{
    let r = ranked_with(s, d);
    if s.len() == 0 || s.last().confidence.key >= d.confidence.key {
        assert(r[s.len() as int] == d);
        assert forall|e: DetectionView| s.contains(e) implies #[trigger] r.contains(e) by {
            let k = choose|k: int| 0 <= k < s.len() && s[k] == e;
            assert(r[k] == e);
        }
    } else {
        let p = s.drop_last();
        let w = ranked_with(p, d);
        lemma_ranked_with_contains(p, d);
        let j = choose|j: int| 0 <= j < w.len() && w[j] == d;
        assert(r[j] == d);
        assert forall|e: DetectionView| s.contains(e) implies #[trigger] r.contains(e) by {
            let k = choose|k: int| 0 <= k < s.len() && s[k] == e;
            if k < p.len() {
                assert(p[k] == e);
                assert(w.contains(e));
                let m = choose|m: int| 0 <= m < w.len() && w[m] == e;
                assert(r[m] == e);
            } else {
                assert(r[r.len() - 1] == e);
            }
        }
    }
}

/// A box of pixels: columns `x1..x2` of rows `y1..y2`.
#[derive(Debug, Clone, Copy, PartialEq, Eq, Structural)]
pub struct PixelRegion {
    pub x1: usize,
    pub y1: usize,
    pub x2: usize,
    pub y2: usize,
}

impl PixelRegion {
    /// The region without what lies right of or below an image.
    pub fn cropped(&self, width: usize, height: usize) -> (res: PixelRegion)
        ensures
            res.x1 == self.x1,
            res.y1 == self.y1,
            res.x2 == (if self.x2 < width {
                self.x2
            } else {
                width
            }),
            res.y2 == (if self.y2 < height {
                self.y2
            } else {
                height
            }),
    {
        PixelRegion {
            x1: self.x1,
            y1: self.y1,
            x2: if self.x2 < width {
                self.x2
            } else {
                width
            },
            y2: if self.y2 < height {
                self.y2
            } else {
                height
            },
        }
    }

    pub open spec fn contains(self, x: int, y: int) -> bool {
        self.x1 <= x < self.x2 && self.y1 <= y < self.y2
    }

    /// The place of a pixel of the region when it is read row by row.
    pub open spec fn place(self, x: int, y: int) -> int {
        (y - self.y1) * (self.x2 - self.x1) + (x - self.x1)
    }

    /// How many pixels the region has.
    pub open spec fn area(self) -> int {
        if self.x1 < self.x2 && self.y1 < self.y2 {
            (self.x2 - self.x1) * (self.y2 - self.y1)
        } else {
            0
        }
    }
}

/// What a mask holds at a pixel: the activation there, or nothing outside the
/// region.
pub open spec fn mask_value(region: PixelRegion, activated: Seq<u8>, x: int, y: int) -> u8 {
    if region.contains(x, y) {
        activated[region.place(x, y)]
    } else {
        0
    }
}

/// Generates a mask of the size of the prototypes that holds, inside a region,
/// the activations of the combined prototypes, and is empty outside of it.
/// `activated` holds one value for each pixel of the region, row by row. The
/// mask stays empty where there are fewer prototype values than coefficients
/// call for.
pub fn assemble_instance_mask(
    num_proto: usize,
    proto_len: usize,
    proto_w: usize,
    proto_h: usize,
    region: PixelRegion,
    activated: &Vec<u8>,
) -> (mask: Vec<u8>)
    requires
        proto_w * proto_h <= usize::MAX,
        num_proto * (proto_w * proto_h) <= usize::MAX,
        region.x2 <= proto_w,
        region.y2 <= proto_h,
        proto_len >= num_proto * (proto_w * proto_h) ==> activated.len() == region.area(),
    ensures
        mask.len() == proto_w * proto_h,
        proto_len < num_proto * (proto_w * proto_h) ==> forall|i: int|
            0 <= i < mask.len() ==> mask@[i] == 0,
        proto_len >= num_proto * (proto_w * proto_h) ==> forall|i: int|
            0 <= i < mask.len() ==> #[trigger] mask@[i] == mask_value(
                region,
                activated@,
                i % (proto_w as int),
                i / (proto_w as int),
            ),
{
    let spatial_dim: usize = proto_w * proto_h;
    let complete: bool = proto_len >= num_proto * spatial_dim;
    let mut mask: Vec<u8> = Vec::new();
    let mut x: usize = 0;
    let mut y: usize = 0;
    let mut i: usize = 0;
    assert(0 * proto_w == 0) by (nonlinear_arith);
    assert(spatial_dim > 0 ==> proto_w > 0) by (nonlinear_arith)
        requires
            spatial_dim == proto_w * proto_h,
    ;
    while i < spatial_dim
        invariant
            i <= spatial_dim,
            spatial_dim == proto_w * proto_h,
            mask.len() == i,
            i == y * proto_w + x,
            i < spatial_dim ==> x < proto_w,
            region.x2 <= proto_w,
            region.y2 <= proto_h,
            complete ==> activated.len() == region.area(),
            !complete ==> forall|k: int| 0 <= k < i ==> mask@[k] == 0,
            complete ==> forall|k: int|
                0 <= k < i ==> #[trigger] mask@[k] == mask_value(
                    region,
                    activated@,
                    k % (proto_w as int),
                    k / (proto_w as int),
                ),
        decreases spatial_dim - i,
    {
        proof {
            vstd::arithmetic::div_mod::lemma_fundamental_div_mod_converse(
                i as int,
                proto_w as int,
                y as int,
                x as int,
            );
            assert(y < proto_h) by (nonlinear_arith)
                requires
                    y * proto_w + x < proto_w * proto_h,
                    x >= 0,
                    proto_w > 0,
            ;
        }
        let inside: bool = region.x1 <= x && x < region.x2 && region.y1 <= y && y < region.y2;
        if complete && inside {
            let cols: usize = region.x2 - region.x1;
            let row: usize = y - region.y1;
            let col: usize = x - region.x1;
            proof {
                let rows = region.y2 - region.y1;
                assert(row * cols + col < cols * rows) by (nonlinear_arith)
                    requires
                        0 <= row < rows,
                        0 <= col < cols,
                ;
                assert(0 <= row * cols) by (nonlinear_arith)
                    requires
                        0 <= row,
                        0 <= cols,
                ;
            }
            mask.push(activated[row * cols + col]);
        } else {
            mask.push(0);
        }
        i += 1;
        x += 1;
        if x == proto_w {
            proof {
                assert((y + 1) * proto_w == y * proto_w + proto_w) by (nonlinear_arith);
            }
            x = 0;
            y += 1;
        }
    }
    mask
}

/// A mask is empty outside its region, borders on the right and below counting as outside.
/// Inside it holds the activations row by row: the first at the upper left corner, the next
/// one to its right, and that below after a row's width.
pub proof fn lemma_mask_pixels(region: PixelRegion, activated: Seq<u8>, x: int, y: int)
    ensures
        x < region.x1 || x >= region.x2 || y < region.y1 || y >= region.y2 ==> mask_value(
            region,
            activated,
            x,
            y,
        ) == 0,
        region.x1 <= x < region.x2 && region.y1 <= y < region.y2 ==> {
            let width = region.x2 - region.x1;
            let k = region.place(x, y);
            &&& 0 <= k < region.area()
            &&& mask_value(region, activated, x, y) == activated[k]
            &&& x == region.x1 && y == region.y1 ==> k == 0
            &&& x + 1 < region.x2 ==> mask_value(region, activated, x + 1, y) == activated[k + 1]
            &&& y + 1 < region.y2 ==> mask_value(region, activated, x, y + 1) == activated[k
                + width]
        },
{
    if region.x1 <= x < region.x2 && region.y1 <= y < region.y2 {
        let width = region.x2 - region.x1;
        let height = region.y2 - region.y1;
        let row = y - region.y1;
        let column = x - region.x1;
        assert(0 * width == 0) by (nonlinear_arith);
        assert((row + 1) * width == row * width + width) by (nonlinear_arith);
        assert(0 <= row * width + column < width * height) by (nonlinear_arith)
            requires
                0 <= row < height,
                0 <= column < width,
        ;
    }
}

} // verus!
