//! Candidate generation for GF3258 verification matching: point-pair scores, the
//! two best partners of every point, and the selection of correspondences.
use vstd::prelude::*;

use crate::feature::descriptor::Gf3258CompactDescriptor;
use crate::feature::extraction::{Gf3258ExtractedPrimaryPoint, Gf3258PrimaryFeatureExtraction};
use crate::text;

verus! {

pub const GF3258_MATCH_CANDIDATES_REVISION: &'static str = "gf3258-match-candidates-v1";

/// Number of pair slots.
pub const GF3258_MATCH_MAX_CANDIDATE_PAIRS: usize = 0x1f;

/// Score that a pair must undercut to be remembered, and the penalty of a
/// descriptor mode that failed its gate.
pub const GF3258_MATCH_SCORE_SENTINEL: i32 = 0xc0;

/// Row length of the score matrix.
pub const GF3258_MATCH_SCORE_MATRIX_STRIDE: usize = 0xb4;

/// Two positions collide up to this squared distance.
pub const GF3258_MATCH_LIVE_DEDUP_DISTANCE_SQ_Q16: i32 = 0xffff;

#[derive(Debug, Clone, Copy, PartialEq, Eq, Structural)]
pub enum Gf3258MatchDescriptorMode {
    /// The second descriptor half is compared as stored.
    Normal,
    /// The second descriptor half is compared with its complement.
    Alternate,
}

/// A feature point as the matcher reads it.
#[derive(Debug, Clone, Copy, PartialEq, Eq)]
pub struct Gf3258MatcherPoint {
    pub polarity: u16,
    pub x_q8: u16,
    pub y_q8: u16,
    pub orientation_q12: u16,
    pub descriptor_10_1f: [u8; 16],
    pub hash20: u32,
    pub hash24: u32,
    pub hash28: u32,
    pub hash30: u32,
}

/// What the candidate stage reads of an enrolled point.
#[derive(Debug, Clone, Copy, PartialEq, Eq)]
pub struct Gf3258EnrolledCandidatePoint {
    pub descriptor_10_1f: [u8; 16],
    pub hash20: u32,
    pub hash28: u32,
}

impl Gf3258MatcherPoint {
    /// The enrolled side of a point.
    pub open spec fn enrolled_side(self) -> Gf3258EnrolledCandidatePoint {
        Gf3258EnrolledCandidatePoint {
            descriptor_10_1f: self.descriptor_10_1f,
            hash20: self.hash20,
            hash28: self.hash28,
        }
    }
}

impl From<&Gf3258MatcherPoint> for Gf3258EnrolledCandidatePoint {
    fn from(point: &Gf3258MatcherPoint) -> (side: Self) {
        Gf3258EnrolledCandidatePoint {
            descriptor_10_1f: point.descriptor_10_1f,
            hash20: point.hash20,
            hash28: point.hash28,
        }
    }
}

impl vstd::std_specs::convert::FromSpecImpl<&Gf3258MatcherPoint> for Gf3258EnrolledCandidatePoint {
    open spec fn obeys_from_spec() -> bool {
        true
    }

    open spec fn from_spec(point: &Gf3258MatcherPoint) -> Self {
        point.enrolled_side()
    }
}

/// An ordered point array. Points before the split are compared only with
/// points before the split of the other array, and the others with the others.
#[derive(Debug, Clone, Copy)]
pub struct Gf3258MatcherFeatureSet<'a> {
    pub points: &'a [Gf3258MatcherPoint],
    pub polarity_split: usize,
}

#[derive(Debug, Clone, Copy)]
pub struct Gf3258EnrolledCandidateFeatureSet<'a> {
    pub points: &'a [Gf3258EnrolledCandidatePoint],
    pub polarity_split: usize,
}

/// Position of an enrolled point.
#[derive(Debug, Clone, Copy, PartialEq, Eq)]
pub struct Gf3258RecoveryEnrolledPoint {
    pub x_q8: u16,
    pub y_q8: u16,
}

/// Vertical band of a point.
#[derive(Debug, Clone, Copy, PartialEq, Eq, Structural)]
pub enum Gf3258MatcherEdgeClass {
    Interior,
    Top,
    Bottom,
}

#[derive(Debug, Clone, Copy, PartialEq, Eq)]
pub struct Gf3258RescuePointData {
    pub edge_class: Gf3258MatcherEdgeClass,
    pub hash2c: u32,
    pub hash34: u32,
}

/// Twenty rows at the top and twenty at the bottom are edge bands.
pub open spec fn edge_class_spec(y_q8: u16) -> Gf3258MatcherEdgeClass {
    if y_q8 < 20 * 256 {
        Gf3258MatcherEdgeClass::Top
    } else if y_q8 >= 44 * 256 {
        Gf3258MatcherEdgeClass::Bottom
    } else {
        Gf3258MatcherEdgeClass::Interior
    }
}

pub fn gf3258_matcher_edge_class(y_q8: u16) -> (class: Gf3258MatcherEdgeClass)
    ensures
        class == edge_class_spec(y_q8),
{
    if y_q8 < 20 * 256 {
        Gf3258MatcherEdgeClass::Top
    } else if y_q8 >= 44 * 256 {
        Gf3258MatcherEdgeClass::Bottom
    } else {
        Gf3258MatcherEdgeClass::Interior
    }
}

/// Byte pairs whose mixed bytes change places.
pub const GF3258_BF420_DESCRIPTOR_CONTROL: [bool; 8] = [
    false,
    true,
    true,
    false,
    true,
    false,
    false,
    true,
];

/// High nibble of the second byte of pair `k` with the low nibble of the first.
pub open spec fn mixed_low(d: Seq<u8>, k: int) -> u8 {
    (d[2 * k + 1] & 0xf0u8) | (d[2 * k] & 0x0fu8)
}

/// High nibble of the first byte of pair `k` with the low nibble of the second.
pub open spec fn mixed_high(d: Seq<u8>, k: int) -> u8 {
    (d[2 * k + 1] & 0x0fu8) | (d[2 * k] & 0xf0u8)
}

/// The permuted descriptor: the pairs are de-interleaved into two halves and
/// their nibbles mixed.
pub open spec fn bf420_spec(d: Seq<u8>) -> Seq<u8> {
    Seq::new(
        16,
        |i: int|
            {
                let k = i % 8;
                let swapped = GF3258_BF420_DESCRIPTOR_CONTROL@[k];
                if (i < 8) != swapped {
                    mixed_low(d, k)
                } else {
                    mixed_high(d, k)
                }
            },
    )
}

pub fn gf3258_bf420_descriptor(descriptor: [u8; 16]) -> (out: [u8; 16])
    ensures
        out@ == bf420_spec(descriptor@),
{
    let mut out: [u8; 16] = [0u8;16];
    for k in 0..8usize
        invariant
            forall|j: int| 0 <= j < k ==> #[trigger] out@[j] == bf420_spec(descriptor@)[j],
            forall|j: int| 8 <= j < 8 + k ==> #[trigger] out@[j] == bf420_spec(descriptor@)[j],
    {
        let first: u8 = descriptor[k * 2];
        let second: u8 = descriptor[k * 2 + 1];
        let low: u8 = (second & 0xf0u8) | (first & 0x0fu8);
        let high: u8 = (second & 0x0fu8) | (first & 0xf0u8);
        if GF3258_BF420_DESCRIPTOR_CONTROL[k] {
            out[k] = high;
            out[k + 8] = low;
        } else {
            out[k] = low;
            out[k + 8] = high;
        }
    }
    proof {
        assert(out@ =~= bf420_spec(descriptor@));
    }
    out
}

/// Number of binary ones.
pub open spec fn popcount(n: nat) -> nat
    decreases n,
{
    if n == 0 {
        0
    } else {
        n % 2 + popcount(n / 2)
    }
}

/// A value below `2^k` has at most `k` ones.
pub proof fn lemma_popcount_bound(n: nat, k: nat)
    requires
        n < vstd::arithmetic::power2::pow2(k),
    ensures
        popcount(n) <= k,
    decreases k,
{
    vstd::arithmetic::power2::lemma2_to64();
    if n > 0 {
        if k > 0 {
            vstd::arithmetic::power2::lemma_pow2_unfold(k);
            lemma_popcount_bound(n / 2, (k - 1) as nat);
        }
    }
}

pub(crate) fn count_ones(word: u32) -> (count: i32)
    ensures
        count == popcount(word as nat),
        0 <= count <= 32,
{
    let mut rest: u32 = word;
    let mut count: i32 = 0;
    proof {
        vstd::arithmetic::power2::lemma2_to64();
        lemma_popcount_bound(word as nat, 32);
    }
    while rest != 0
        invariant
            count + popcount(rest as nat) == popcount(word as nat),
            popcount(word as nat) <= 32,
            0 <= count,
        decreases rest,
    {
        count = count + (rest % 2) as i32;
        rest = rest / 2;
    }
    count
}

/// Number of differing bits of the first `n` bytes.
pub open spec fn hamming_bytes(a: Seq<u8>, b: Seq<u8>, n: nat) -> nat
    decreases n,
{
    if n == 0 {
        0
    } else {
        hamming_bytes(a, b, (n - 1) as nat) + popcount((a[n - 1] ^ b[n - 1]) as nat)
    }
}

/// Number of differing bits of two byte strings of length eight.
pub fn gf3258_hamming64_bytes(a: &[u8; 8], b: &[u8; 8]) -> (distance: i32)
    ensures
        distance == hamming_bytes(a@, b@, 8),
        0 <= distance <= 64,
{
    let mut distance: i32 = 0;
    for i in 0..8usize
        invariant
            distance == hamming_bytes(a@, b@, i as nat),
            0 <= distance <= 8 * i,
    {
        let difference: u8 = a[i] ^ b[i];
        proof {
            vstd::arithmetic::power2::lemma2_to64();
            lemma_popcount_bound(difference as nat, 8);
        }
        distance = distance + count_ones(difference as u32);
    }
    distance
}

/// Number of differing bits of two word pairs.
pub open spec fn hamming_words(a0: u32, a1: u32, b0: u32, b1: u32) -> nat {
    popcount((a0 ^ b0) as nat) + popcount((a1 ^ b1) as nat)
}

fn gf3258_hamming64_words(a0: u32, a1: u32, b0: u32, b1: u32) -> (distance: i32)
    ensures
        distance == hamming_words(a0, a1, b0, b1),
        0 <= distance <= 64,
{
    count_ones(a0 ^ b0) + count_ones(a1 ^ b1)
}

/// Thresholds of the candidate stage.
#[derive(Debug, Clone, Copy, PartialEq, Eq)]
pub struct Gf3258CandidateMatcherConfig {
    /// Largest distance of the first descriptor halves.
    pub first_half_hamming_max: i32,
    /// Largest descriptor distance of a mode.
    pub descriptor_mode_hamming_max: i32,
    /// A best partner is unambiguous when `best_multiplier * best` is below
    /// `second_multiplier * second`.
    pub ambiguity_best_multiplier: i32,
    pub ambiguity_second_multiplier: i32,
}

#[derive(Debug, Clone, Copy, PartialEq, Eq)]
pub struct Gf3258PointPairScore {
    pub first_half_hamming: i32,
    pub second_half_hamming: i32,
    pub normal_descriptor_hamming: i32,
    pub alternate_descriptor_hamming: i32,
    pub normal_hash_hamming: Option<i32>,
    pub alternate_hash_hamming: Option<i32>,
    pub normal_total: i32,
    pub alternate_total: i32,
    pub selected_total: i32,
    pub selected_mode: Gf3258MatchDescriptorMode,
}

/// Score of a point pair; none where the first half or both modes fail.
pub open spec fn pair_score_spec(
    enrolled: Gf3258EnrolledCandidatePoint,
    live: Gf3258MatcherPoint,
    config: Gf3258CandidateMatcherConfig,
) -> Option<Gf3258PointPairScore> {
    let e = enrolled.descriptor_10_1f@;
    let l = live.descriptor_10_1f@;
    let d0 = hamming_bytes(e.subrange(0, 8), l.subrange(0, 8), 8) as int;
    let d1 = hamming_bytes(e.subrange(8, 16), l.subrange(8, 16), 8) as int;
    let normal = d0 + d1;
    let alternate = d0 + (64 - d1);
    let normal_pass = normal <= config.descriptor_mode_hamming_max;
    let alternate_pass = alternate <= config.descriptor_mode_hamming_max;
    if d0 > config.first_half_hamming_max || (!normal_pass && !alternate_pass) {
        None
    } else {
        let normal_hash: int = if normal_pass {
            hamming_words(enrolled.hash20, enrolled.hash28, live.hash20, live.hash28) as int
        } else {
            GF3258_MATCH_SCORE_SENTINEL as int
        };
        let alternate_hash: int = if alternate_pass {
            hamming_words(enrolled.hash20, enrolled.hash28, live.hash24, live.hash30) as int
        } else {
            GF3258_MATCH_SCORE_SENTINEL as int
        };
        let normal_total = normal + normal_hash;
        let alternate_total = alternate + alternate_hash;
        Some(
            Gf3258PointPairScore {
                first_half_hamming: d0 as i32,
                second_half_hamming: d1 as i32,
                normal_descriptor_hamming: normal as i32,
                alternate_descriptor_hamming: alternate as i32,
                normal_hash_hamming: if normal_pass {
                    Some(normal_hash as i32)
                } else {
                    None
                },
                alternate_hash_hamming: if alternate_pass {
                    Some(alternate_hash as i32)
                } else {
                    None
                },
                normal_total: normal_total as i32,
                alternate_total: alternate_total as i32,
                selected_total: (if normal_total < alternate_total {
                    normal_total
                } else {
                    alternate_total
                }) as i32,
                selected_mode: if normal_total < alternate_total {
                    Gf3258MatchDescriptorMode::Normal
                } else {
                    Gf3258MatchDescriptorMode::Alternate
                },
            },
        )
    }
}

/// The two halves of a descriptor.
fn descriptor_halves(d: &[u8; 16]) -> (r: ([u8; 8], [u8; 8]))
    ensures
        r.0@ == d@.subrange(0, 8),
        r.1@ == d@.subrange(8, 16),
{
    let first: [u8; 8] = [d[0], d[1], d[2], d[3], d[4], d[5], d[6], d[7]];
    let second: [u8; 8] = [d[8], d[9], d[10], d[11], d[12], d[13], d[14], d[15]];
    assert(first@ =~= d@.subrange(0, 8));
    assert(second@ =~= d@.subrange(8, 16));
    (first, second)
}

/// Score of an enrolled point against a live point.
pub fn gf3258_point_pair_score_core(
    enrolled: &Gf3258EnrolledCandidatePoint,
    live: &Gf3258MatcherPoint,
    config: Gf3258CandidateMatcherConfig,
) -> (score: Option<Gf3258PointPairScore>)
    ensures
        score == pair_score_spec(*enrolled, *live, config),
        score is Some ==> 0 <= score->Some_0.selected_total <= 192,
{
    let (enrolled_first, enrolled_second): ([u8; 8], [u8; 8]) = descriptor_halves(
        &enrolled.descriptor_10_1f,
    );
    let (live_first, live_second): ([u8; 8], [u8; 8]) = descriptor_halves(&live.descriptor_10_1f);
    let d0: i32 = gf3258_hamming64_bytes(&enrolled_first, &live_first);
    if d0 > config.first_half_hamming_max {
        return None;
    }
    let d1: i32 = gf3258_hamming64_bytes(&enrolled_second, &live_second);
    let normal_descriptor: i32 = d0 + d1;
    let alternate_descriptor: i32 = d0 + (64 - d1);
    let normal_pass: bool = normal_descriptor <= config.descriptor_mode_hamming_max;
    let alternate_pass: bool = alternate_descriptor <= config.descriptor_mode_hamming_max;
    if !normal_pass && !alternate_pass {
        return None;
    }
    let normal_hash: Option<i32> = if normal_pass {
        Some(gf3258_hamming64_words(enrolled.hash20, enrolled.hash28, live.hash20, live.hash28))
    } else {
        None
    };
    let alternate_hash: Option<i32> = if alternate_pass {
        Some(gf3258_hamming64_words(enrolled.hash20, enrolled.hash28, live.hash24, live.hash30))
    } else {
        None
    };
    let normal_total: i32 = normal_descriptor + normal_hash.unwrap_or(GF3258_MATCH_SCORE_SENTINEL);
    let alternate_total: i32 = alternate_descriptor + alternate_hash.unwrap_or(
        GF3258_MATCH_SCORE_SENTINEL,
    );
    let (selected_total, selected_mode): (i32, Gf3258MatchDescriptorMode) = if normal_total
        < alternate_total {
        (normal_total, Gf3258MatchDescriptorMode::Normal)
    } else {
        (alternate_total, Gf3258MatchDescriptorMode::Alternate)
    };
    Some(
        Gf3258PointPairScore {
            first_half_hamming: d0,
            second_half_hamming: d1,
            normal_descriptor_hamming: normal_descriptor,
            alternate_descriptor_hamming: alternate_descriptor,
            normal_hash_hamming: normal_hash,
            alternate_hash_hamming: alternate_hash,
            normal_total,
            alternate_total,
            selected_total,
            selected_mode,
        },
    )
}

/// Score of an enrolled point against a live point.
pub fn gf3258_point_pair_score(
    enrolled: &Gf3258MatcherPoint,
    live: &Gf3258MatcherPoint,
    config: Gf3258CandidateMatcherConfig,
) -> (score: Option<Gf3258PointPairScore>)
    ensures
        score == pair_score_spec(enrolled.enrolled_side(), *live, config),
{
    let side: Gf3258EnrolledCandidatePoint = Gf3258EnrolledCandidatePoint {
        descriptor_10_1f: enrolled.descriptor_10_1f,
        hash20: enrolled.hash20,
        hash28: enrolled.hash28,
    };
    gf3258_point_pair_score_core(&side, live, config)
}

/// A raw response below zero has polarity one.
pub open spec fn polarity_of(raw_response: i32) -> u16 {
    if raw_response < 0 {
        1
    } else {
        0
    }
}

pub fn gf3258_matcher_polarity_from_raw_response(raw_response: i32) -> (polarity: u16)
    ensures
        polarity == polarity_of(raw_response),
{
    if raw_response < 0 {
        1
    } else {
        0
    }
}

/// Two-pointer partition of `order` by the class of its entries: from the front
/// past class zero, from the back past class one, and a swap of what is left.
pub open spec fn partition_from(
    classes: Seq<u16>,
    order: Seq<int>,
    front: int,
    back: int,
) -> (Seq<int>, int)
    decreases (if front < back { back - front } else { 0 }),
{
    if front >= back {
        (order, front)
    } else if classes[order[front]] % 4 == 0 {
        partition_from(classes, order, front + 1, back)
    } else if classes[order[back - 1]] % 4 == 1 {
        partition_from(classes, order, front, back - 1)
    } else {
        partition_from(
            classes,
            order.update(front, order[back - 1]).update(back - 1, order[front]),
            front + 1,
            back - 1,
        )
    }
}

/// The order in which a partition leaves points of the given polarities, and
/// the position of the split.
pub open spec fn partition_spec(classes: Seq<u16>) -> (Seq<int>, int) {
    partition_from(classes, Seq::new(classes.len(), |i: int| i), 0, classes.len() as int)
}

/// A list of distinct positions below `n`.
pub open spec fn is_permutation(order: Seq<int>, n: nat) -> bool {
    &&& order.len() == n
    &&& forall|i: int| 0 <= i < n ==> 0 <= #[trigger] order[i] < n
    &&& forall|i: int, j: int| 0 <= i < j < n ==> #[trigger] order[i] != #[trigger] order[j]
}

/// A partition only reorders, and its split is a position.
pub proof fn lemma_partition_permutes(classes: Seq<u16>, order: Seq<int>, front: int, back: int)
    requires
        is_permutation(order, classes.len()),
        0 <= front <= classes.len(),
        0 <= back <= classes.len(),
    ensures
        is_permutation(partition_from(classes, order, front, back).0, classes.len()),
        front <= partition_from(classes, order, front, back).1 <= classes.len(),
    decreases (if front < back { back - front } else { 0 }),
{
    if front < back {
        if classes[order[front]] % 4 == 0 {
            lemma_partition_permutes(classes, order, front + 1, back);
        } else if classes[order[back - 1]] % 4 == 1 {
            lemma_partition_permutes(classes, order, front, back - 1);
        } else {
            let swapped = order.update(front, order[back - 1]).update(back - 1, order[front]);
            lemma_partition_permutes(classes, swapped, front + 1, back - 1);
        }
    }
}

/// Class zero before `front`, class one from `back` on.
pub open spec fn separated(classes: Seq<u16>, order: Seq<int>, front: int, back: int) -> bool {
    &&& forall|i: int| 0 <= i < front ==> classes[#[trigger] order[i]] == 0
    &&& forall|i: int| back <= i < classes.len() ==> classes[#[trigger] order[i]] == 1
}

/// With polarities zero and one, everything before the split has polarity zero
/// and everything from it on has polarity one.
pub proof fn lemma_partition_separates(classes: Seq<u16>, order: Seq<int>, front: int, back: int)
    requires
        is_permutation(order, classes.len()),
        0 <= front <= back <= classes.len(),
        forall|i: int| 0 <= i < classes.len() ==> (#[trigger] classes[i]) <= 1,
        separated(classes, order, front, back),
    ensures
        separated(
            classes,
            partition_from(classes, order, front, back).0,
            partition_from(classes, order, front, back).1,
            partition_from(classes, order, front, back).1,
        ),
    decreases back - front,
{
    if front < back {
        assert(classes[order[front]] <= 1);
        assert(classes[order[back - 1]] <= 1);
        if classes[order[front]] % 4 == 0 {
            lemma_partition_separates(classes, order, front + 1, back);
        } else if classes[order[back - 1]] % 4 == 1 {
            lemma_partition_separates(classes, order, front, back - 1);
        } else {
            let swapped = order.update(front, order[back - 1]).update(back - 1, order[front]);
            lemma_partition_separates(classes, swapped, front + 1, back - 1);
        }
    }
}

/// The order and the split of a partition of the given polarities.
fn partition_order(classes: &Vec<u16>) -> (r: (Vec<usize>, usize))
    ensures
        r.0@.len() == classes@.len(),
        forall|i: int|
            0 <= i < classes@.len() ==> #[trigger] r.0@[i] == partition_spec(classes@).0[i],
        is_permutation(partition_spec(classes@).0, classes@.len()),
        r.1 == partition_spec(classes@).1,
        r.1 <= classes@.len(),
{
    let n: usize = classes.len();
    let mut order: Vec<usize> = Vec::with_capacity(n);
    for i in 0..n
        invariant
            order@.len() == i,
            forall|j: int| 0 <= j < i ==> #[trigger] order@[j] == j,
    {
        order.push(i);
    }
    let ghost identity = Seq::new(classes@.len(), |i: int| i);
    let ghost mut model = identity;
    let mut front: usize = 0;
    let mut back: usize = n;
    proof {
        lemma_partition_permutes(classes@, identity, 0, n as int);
    }
    while front < back
        invariant
            n == classes@.len(),
            order@.len() == n,
            is_permutation(model, classes@.len()),
            forall|j: int| 0 <= j < n ==> #[trigger] order@[j] == model[j],
            front <= n,
            back <= n,
            partition_from(classes@, model, front as int, back as int) == partition_spec(classes@),
        decreases (if front < back { back - front } else { 0 }),
    {
        let head: usize = order[front];
        let tail: usize = order[back - 1];
        proof {
            assert(order@[front as int] == model[front as int]);
            assert(order@[back - 1] == model[back - 1]);
        }
        if classes[head] % 4 == 0 {
            front = front + 1;
        } else if classes[tail] % 4 == 1 {
            back = back - 1;
        } else {
            order.set(front, tail);
            order.set(back - 1, head);
            proof {
                model = model.update(front as int, model[back - 1]).update(
                    back - 1,
                    model[front as int],
                );
            }
            front = front + 1;
            back = back - 1;
        }
    }
    (order, front)
}

/// Polarities of a point array.
pub open spec fn polarities(points: Seq<Gf3258MatcherPoint>) -> Seq<u16> {
    Seq::new(points.len(), |i: int| points[i].polarity)
}

/// A point array in partitioned order.
pub open spec fn partitioned(points: Seq<Gf3258MatcherPoint>) -> Seq<Gf3258MatcherPoint> {
    Seq::new(points.len(), |i: int| points[partition_spec(polarities(points)).0[i]])
}

/// Moves polarity zero before polarity one and returns the split.
pub fn gf3258_partition_matcher_points(points: &mut [Gf3258MatcherPoint]) -> (split: usize)
    ensures
        final(points)@ == partitioned(old(points)@),
        split == partition_spec(polarities(old(points)@)).1,
        split <= old(points)@.len(),
{
    let n: usize = points.len();
    let ghost before = points@;
    let mut classes: Vec<u16> = Vec::with_capacity(n);
    let mut copy: Vec<Gf3258MatcherPoint> = Vec::with_capacity(n);
    for i in 0..n
        invariant
            n == points@.len(),
            points@ == before,
            classes@.len() == i,
            copy@.len() == i,
            forall|j: int| 0 <= j < i ==> #[trigger] classes@[j] == before[j].polarity,
            forall|j: int| 0 <= j < i ==> #[trigger] copy@[j] == before[j],
    {
        classes.push(points[i].polarity);
        copy.push(points[i]);
    }
    proof {
        assert(classes@ =~= polarities(before));
    }
    let (order, split): (Vec<usize>, usize) = partition_order(&classes);
    for i in 0..n
        invariant
            n == points@.len(),
            n == before.len(),
            copy@.len() == n,
            forall|j: int| 0 <= j < n ==> #[trigger] copy@[j] == before[j],
            order@.len() == n,
            is_permutation(partition_spec(polarities(before)).0, n as nat),
            forall|j: int|
                0 <= j < n ==> #[trigger] order@[j] == partition_spec(polarities(before)).0[j],
            forall|j: int| 0 <= j < i ==> points@[j] == partitioned(before)[j],
    {
        proof {
            assert(order@[i as int] == partition_spec(polarities(before)).0[i as int]);
        }
        points[i] = copy[order[i]];
    }
    proof {
        assert(points@ =~= partitioned(before));
    }
    split
}

/// The two best partners of a point. Unused places hold the sentinel score and
/// the index `-1`.
#[derive(Clone, Copy)]
pub struct TopTwo {
    pub best: i32,
    pub second: i32,
    pub best_index: i32,
    pub second_index: i32,
}

pub open spec fn no_partners() -> TopTwo {
    TopTwo {
        best: GF3258_MATCH_SCORE_SENTINEL,
        second: GF3258_MATCH_SCORE_SENTINEL,
        best_index: -1i32,
        second_index: -1i32,
    }
}

/// A strictly lower score enters; the earlier of two equal scores stays ahead.
pub open spec fn update_top_two_spec(t: TopTwo, score: i32, index: i32) -> TopTwo {
    if score < t.best {
        TopTwo { best: score, second: t.best, best_index: index, second_index: t.best_index }
    } else if score < t.second {
        TopTwo { second: score, second_index: index, ..t }
    } else {
        t
    }
}

fn gf3258_update_top_two(t: TopTwo, score: i32, index: i32) -> (r: TopTwo)
    ensures
        r == update_top_two_spec(t, score, index),
{
    if score < t.best {
        TopTwo { best: score, second: t.best, best_index: index, second_index: t.best_index }
    } else if score < t.second {
        TopTwo {
            best: t.best,
            second: score,
            best_index: t.best_index,
            second_index: index,
        }
    } else {
        t
    }
}

/// A point, its nominated partner, and the scores of its two best partners.
#[derive(Debug, Clone, Copy, PartialEq, Eq)]
pub struct Nomination {
    pub source: i32,
    pub target: i32,
    pub best: i32,
    pub second: i32,
}

/// Squared distance of two positions in 32-bit arithmetic.
pub open spec fn distance_sq_spec(
    a: Gf3258RecoveryEnrolledPoint,
    b: Gf3258RecoveryEnrolledPoint,
) -> i32 {
    let dx = (a.x_q8 - b.x_q8) as i32;
    let dy = (a.y_q8 - b.y_q8) as i32;
    dx.wrapping_mul(dx).wrapping_add(dy.wrapping_mul(dy))
}

fn distance_sq_q16(a: Gf3258RecoveryEnrolledPoint, b: Gf3258RecoveryEnrolledPoint) -> (d: i32)
    ensures
        d == distance_sq_spec(a, b),
{
    let dx: i32 = a.x_q8 as i32 - b.x_q8 as i32;
    let dy: i32 = a.y_q8 as i32 - b.y_q8 as i32;
    dx.wrapping_mul(dx).wrapping_add(dy.wrapping_mul(dy))
}

/// The targets of two nominations collide.
pub open spec fn targets_collide(
    positions: Seq<Gf3258RecoveryEnrolledPoint>,
    a: Nomination,
    b: Nomination,
) -> bool {
    distance_sq_spec(positions[a.target as int], positions[b.target as int])
        <= GF3258_MATCH_LIVE_DEDUP_DISTANCE_SQ_Q16
}

/// Scan of the kept nominations from position `i` on for collisions with a new
/// one. The new one takes the place of the first collision that it undercuts;
/// later ones that it undercuts are removed by moving the last record into
/// their place, which is then passed over. A collision that it does not
/// undercut discards it, unless it already has a place. The results are the
/// list, whether the new one has a place, and whether it was discarded.
pub open spec fn collision_scan(
    kept: Seq<Nomination>,
    new: Nomination,
    positions: Seq<Gf3258RecoveryEnrolledPoint>,
    i: nat,
    placed: bool,
) -> (Seq<Nomination>, bool, bool)
    decreases (if i < kept.len() { kept.len() - i } else { 0 }),
{
    if i >= kept.len() {
        (kept, placed, false)
    } else if !targets_collide(positions, new, kept[i as int]) {
        collision_scan(kept, new, positions, i + 1, placed)
    } else if new.best < kept[i as int].best {
        if placed {
            let shorter = kept.drop_last();
            collision_scan(
                if i < shorter.len() {
                    shorter.update(i as int, kept.last())
                } else {
                    shorter
                },
                new,
                positions,
                i + 1,
                placed,
            )
        } else {
            collision_scan(kept.update(i as int, new), new, positions, i + 1, true)
        }
    } else if !placed {
        (kept, false, true)
    } else {
        collision_scan(kept, new, positions, i + 1, placed)
    }
}

/// Earliest position of the largest best score among the first `n`.
pub open spec fn worst_position(kept: Seq<Nomination>, n: nat) -> int
    decreases n,
{
    if n <= 1 {
        0
    } else {
        let w = worst_position(kept, (n - 1) as nat);
        if kept[w].best < kept[n - 1].best {
            n - 1
        } else {
            w
        }
    }
}

/// The list after a new nomination: it replaces what it collides with, or takes
/// a free slot, or the place of a strictly worse record when all are taken.
pub open spec fn placed_nomination(
    kept: Seq<Nomination>,
    new: Nomination,
    positions: Seq<Gf3258RecoveryEnrolledPoint>,
) -> Seq<Nomination> {
    let (scanned, placed, discarded) = collision_scan(kept, new, positions, 0, false);
    if placed || discarded {
        scanned
    } else if scanned.len() == GF3258_MATCH_MAX_CANDIDATE_PAIRS {
        let w = worst_position(scanned, scanned.len());
        if new.best < scanned[w].best {
            scanned.update(w, new)
        } else {
            scanned
        }
    } else {
        scanned.push(new)
    }
}

/// The nomination of source `i`: its best partner, where that one is not
/// ambiguous.
pub open spec fn nomination_of(
    t: TopTwo,
    i: int,
    best_multiplier: i32,
    second_multiplier: i32,
) -> Option<Nomination> {
    if t.best_index < 0 || best_multiplier.wrapping_mul(t.best) >= second_multiplier.wrapping_mul(
        t.second,
    ) {
        None
    } else {
        Some(Nomination { source: i as i32, target: t.best_index, best: t.best, second: t.second })
    }
}

/// The nominations kept after the first `n` sources.
pub open spec fn selection(
    partners: Seq<TopTwo>,
    positions: Seq<Gf3258RecoveryEnrolledPoint>,
    best_multiplier: i32,
    second_multiplier: i32,
    n: nat,
) -> Seq<Nomination>
    decreases n,
{
    if n == 0 {
        Seq::empty()
    } else {
        let kept = selection(
            partners,
            positions,
            best_multiplier,
            second_multiplier,
            (n - 1) as nat,
        );
        match nomination_of(partners[n - 1], n - 1, best_multiplier, second_multiplier) {
            Some(new) => placed_nomination(kept, new, positions),
            None => kept,
        }
    }
}

/// Every target is a position.
pub open spec fn targets_valid(kept: Seq<Nomination>, count: nat) -> bool {
    forall|i: int| 0 <= i < kept.len() ==> 0 <= (#[trigger] kept[i]).target < count
}

/// A collision scan never lengthens the list and keeps its targets valid.
pub proof fn lemma_collision_scan(
    kept: Seq<Nomination>,
    new: Nomination,
    positions: Seq<Gf3258RecoveryEnrolledPoint>,
    i: nat,
    placed: bool,
)
    requires
        targets_valid(kept, positions.len()),
        0 <= new.target < positions.len(),
    ensures
        collision_scan(kept, new, positions, i, placed).0.len() <= kept.len(),
        targets_valid(collision_scan(kept, new, positions, i, placed).0, positions.len()),
    decreases (if i < kept.len() { kept.len() - i } else { 0 }),
{
    if i < kept.len() {
        if !targets_collide(positions, new, kept[i as int]) {
            lemma_collision_scan(kept, new, positions, i + 1, placed);
        } else if new.best < kept[i as int].best {
            if placed {
                let shorter = kept.drop_last();
                let next = if i < shorter.len() {
                    shorter.update(i as int, kept.last())
                } else {
                    shorter
                };
                assert forall|j: int| 0 <= j < next.len() implies 0 <= (#[trigger] next[j]).target
                    < positions.len() by {
                    assert(0 <= kept[j].target < positions.len());
                    assert(0 <= kept[kept.len() - 1].target < positions.len());
                }
                lemma_collision_scan(next, new, positions, i + 1, placed);
            } else {
                lemma_collision_scan(kept.update(i as int, new), new, positions, i + 1, true);
            }
        } else if placed {
            lemma_collision_scan(kept, new, positions, i + 1, placed);
        }
    }
}

/// Adds a nomination to the kept ones.
fn place_nomination(
    kept: &mut Vec<Nomination>,
    new: Nomination,
    positions: &Vec<Gf3258RecoveryEnrolledPoint>,
)
    requires
        targets_valid(old(kept)@, positions@.len()),
        old(kept)@.len() <= GF3258_MATCH_MAX_CANDIDATE_PAIRS,
        0 <= new.target < positions@.len(),
    ensures
        final(kept)@ == placed_nomination(old(kept)@, new, positions@),
        targets_valid(final(kept)@, positions@.len()),
        final(kept)@.len() <= GF3258_MATCH_MAX_CANDIDATE_PAIRS,
{
    let ghost goal = collision_scan(kept@, new, positions@, 0, false);
    let mut placed: bool = false;
    let mut i: usize = 0;
    let mut discarded: bool = false;
    while i < kept.len() && !discarded
        invariant
            targets_valid(kept@, positions@.len()),
            kept@.len() <= GF3258_MATCH_MAX_CANDIDATE_PAIRS,
            i <= 32,
            0 <= new.target < positions@.len(),
            !discarded ==> goal == collision_scan(kept@, new, positions@, i as nat, placed),
            discarded ==> goal == (kept@, placed, true),
        decreases (if i < kept@.len() { kept@.len() - i } else { 0 }),
            (if discarded { 0int } else { 1int }),
    {
        let existing: Nomination = kept[i];
        assert(0 <= kept@[i as int].target < positions@.len());
        let distance: i32 = distance_sq_q16(
            positions[new.target as usize],
            positions[existing.target as usize],
        );
        if distance > GF3258_MATCH_LIVE_DEDUP_DISTANCE_SQ_Q16 {
            i = i + 1;
        } else if new.best < existing.best {
            if placed {
                let ghost before = kept@;
                let last: Nomination = kept.pop().unwrap();
                assert(last == before[before.len() - 1]);
                if i < kept.len() {
                    kept.set(i, last);
                }
                proof {
                    assert forall|j: int| 0 <= j < kept@.len() implies 0 <= (
                    #[trigger] kept@[j]).target < positions@.len() by {
                        assert(0 <= before[j].target < positions@.len());
                        assert(0 <= before[before.len() - 1].target < positions@.len());
                    }
                    assert(before.drop_last() =~= before.take(before.len() - 1));
                }
                i = i + 1;
            } else {
                kept.set(i, new);
                placed = true;
                i = i + 1;
            }
        } else if placed {
            i = i + 1;
        } else {
            discarded = true;
        }
    }
    if placed || discarded {
        return ;
    }
    if kept.len() == GF3258_MATCH_MAX_CANDIDATE_PAIRS {
        let mut worst: usize = 0;
        for k in 1..kept.len()
            invariant
                worst < k,
                kept@.len() >= 1,
                worst == worst_position(kept@, k as nat),
        {
            if kept[worst].best < kept[k].best {
                worst = k;
            }
        }
        if new.best < kept[worst].best {
            kept.set(worst, new);
        }
    } else {
        kept.push(new);
    }
}

/// Keeps the unambiguous nominations of the sources.
fn select_nominations(
    partners: &Vec<TopTwo>,
    positions: &Vec<Gf3258RecoveryEnrolledPoint>,
    best_multiplier: i32,
    second_multiplier: i32,
) -> (kept: Vec<Nomination>)
    requires
        forall|i: int|
            0 <= i < partners@.len() ==> (nomination_of(
                #[trigger] partners@[i],
                i,
                best_multiplier,
                second_multiplier,
            ) is Some ==> partners@[i].best_index < positions@.len()),
    ensures
        kept@ == selection(
            partners@,
            positions@,
            best_multiplier,
            second_multiplier,
            partners@.len(),
        ),
        kept@.len() <= GF3258_MATCH_MAX_CANDIDATE_PAIRS,
        targets_valid(kept@, positions@.len()),
        forall|k: int|
            0 <= k < kept@.len() ==> best_multiplier.wrapping_mul((#[trigger] kept@[k]).best)
                < second_multiplier.wrapping_mul(kept@[k].second),
{
    proof {
        lemma_selection_unambiguous(
            partners@,
            positions@,
            best_multiplier,
            second_multiplier,
            partners@.len(),
        );
    }
    let mut kept: Vec<Nomination> = Vec::with_capacity(GF3258_MATCH_MAX_CANDIDATE_PAIRS);
    for i in 0..partners.len()
        invariant
            forall|i: int|
                0 <= i < partners@.len() ==> (nomination_of(
                    #[trigger] partners@[i],
                    i,
                    best_multiplier,
                    second_multiplier,
                ) is Some ==> partners@[i].best_index < positions@.len()),
            kept@ == selection(
                partners@,
                positions@,
                best_multiplier,
                second_multiplier,
                i as nat,
            ),
            kept@.len() <= GF3258_MATCH_MAX_CANDIDATE_PAIRS,
            targets_valid(kept@, positions@.len()),
    {
        let t: TopTwo = partners[i];
        assert(t == partners@[i as int]);
        if t.best_index >= 0 && best_multiplier.wrapping_mul(t.best)
            < second_multiplier.wrapping_mul(t.second) {
            place_nomination(
                &mut kept,
                Nomination {
                    source: i as i32,
                    target: t.best_index,
                    best: t.best,
                    second: t.second,
                },
                positions,
            );
        }
    }
    kept
}

/// A selected pair of an enrolled and a live point.
#[derive(Debug, Clone, Copy, PartialEq, Eq)]
pub struct Gf3258SelectedCorrespondence {
    pub enrolled_index: i32,
    pub live_index: i32,
    pub best_score: i32,
    pub second_best_score: i32,
}

/// Kept nominations of enrolled points as correspondences.
pub open spec fn correspondences(kept: Seq<Nomination>) -> Seq<Gf3258SelectedCorrespondence> {
    Seq::new(
        kept.len(),
        |i: int|
            Gf3258SelectedCorrespondence {
                enrolled_index: kept[i].source,
                live_index: kept[i].target,
                best_score: kept[i].best,
                second_best_score: kept[i].second,
            },
    )
}

/// Positions of live points.
pub open spec fn live_positions(live: Seq<Gf3258MatcherPoint>) -> Seq<Gf3258RecoveryEnrolledPoint> {
    Seq::new(
        live.len(),
        |i: int| Gf3258RecoveryEnrolledPoint { x_q8: live[i].x_q8, y_q8: live[i].y_q8 },
    )
}

fn positions_of(live: &[Gf3258MatcherPoint]) -> (positions: Vec<Gf3258RecoveryEnrolledPoint>)
    ensures
        positions@ == live_positions(live@),
{
    let mut positions: Vec<Gf3258RecoveryEnrolledPoint> = Vec::with_capacity(live.len());
    for i in 0..live.len()
        invariant
            positions@.len() == i,
            forall|j: int| 0 <= j < i ==> positions@[j] == live_positions(live@)[j],
    {
        positions.push(
            Gf3258RecoveryEnrolledPoint { x_q8: live[i].x_q8, y_q8: live[i].y_q8 },
        );
    }
    proof {
        assert(positions@ =~= live_positions(live@));
    }
    positions
}

/// The partners that two score and index tables describe.
pub open spec fn partners_of(scores: Seq<[i32; 2]>, indices: Seq<[i32; 2]>) -> Seq<TopTwo> {
    Seq::new(
        scores.len(),
        |i: int|
            TopTwo {
                best: scores[i]@[0],
                second: scores[i]@[1],
                best_index: indices[i]@[0],
                second_index: indices[i]@[1],
            },
    )
}

fn correspondences_of(kept: &Vec<Nomination>) -> (out: Vec<Gf3258SelectedCorrespondence>)
    ensures
        out@ == correspondences(kept@),
{
    let mut out: Vec<Gf3258SelectedCorrespondence> = Vec::with_capacity(kept.len());
    for i in 0..kept.len()
        invariant
            out@.len() == i,
            forall|j: int| 0 <= j < i ==> out@[j] == correspondences(kept@)[j],
    {
        out.push(
            Gf3258SelectedCorrespondence {
                enrolled_index: kept[i].source,
                live_index: kept[i].target,
                best_score: kept[i].best,
                second_best_score: kept[i].second,
            },
        );
    }
    proof {
        assert(out@ =~= correspondences(kept@));
    }
    out
}

/// Selects the correspondences of the enrolled points from their two best live
/// partners.
pub fn gf3258_select_correspondences_from_top_two(
    live: &[Gf3258MatcherPoint],
    best_scores: &[[i32; 2]],
    best_live_indices: &[[i32; 2]],
    ambiguity_best_multiplier: i32,
    ambiguity_second_multiplier: i32,
) -> (selected: Vec<Gf3258SelectedCorrespondence>)
    requires
        best_scores@.len() == best_live_indices@.len(),
        forall|i: int|
            0 <= i < best_scores@.len() ==> (nomination_of(
                #[trigger] partners_of(best_scores@, best_live_indices@)[i],
                i,
                ambiguity_best_multiplier,
                ambiguity_second_multiplier,
            ) is Some ==> best_live_indices@[i]@[0] < live@.len()),
    ensures
        selected@ == correspondences(
            selection(
                partners_of(best_scores@, best_live_indices@),
                live_positions(live@),
                ambiguity_best_multiplier,
                ambiguity_second_multiplier,
                best_scores@.len(),
            ),
        ),
        selected@.len() <= GF3258_MATCH_MAX_CANDIDATE_PAIRS,
        forall|k: int|
            0 <= k < selected@.len() ==> ambiguity_best_multiplier.wrapping_mul(
                (#[trigger] selected@[k]).best_score,
            ) < ambiguity_second_multiplier.wrapping_mul(selected@[k].second_best_score),
{
    let positions: Vec<Gf3258RecoveryEnrolledPoint> = positions_of(live);
    let mut partners: Vec<TopTwo> = Vec::with_capacity(best_scores.len());
    for i in 0..best_scores.len()
        invariant
            best_scores@.len() == best_live_indices@.len(),
            partners@.len() == i,
            forall|j: int|
                0 <= j < i ==> #[trigger] partners@[j] == partners_of(
                    best_scores@,
                    best_live_indices@,
                )[j],
    {
        partners.push(
            TopTwo {
                best: best_scores[i][0],
                second: best_scores[i][1],
                best_index: best_live_indices[i][0],
                second_index: best_live_indices[i][1],
            },
        );
    }
    proof {
        assert(partners@ =~= partners_of(best_scores@, best_live_indices@));
    }
    let kept: Vec<Nomination> = select_nominations(
        &partners,
        &positions,
        ambiguity_best_multiplier,
        ambiguity_second_multiplier,
    );
    correspondences_of(&kept)
}

#[derive(Debug, Clone, PartialEq, Eq)]
pub enum Gf3258CandidateMatchError {
    InvalidPolaritySplit { side: &'static str, split: usize, point_count: usize },
    TooManyLivePoints { actual: usize, maximum: usize },
    InvalidThreshold { field: &'static str, value: i32 },
    RecoveryScoreMatrixTooSmall { actual: usize, required: usize },
}

/// The two best enrolled partners of live point `j` among the rows `lo..lo + n`
/// of a score matrix.
pub open spec fn column_partners(matrix: Seq<u8>, j: int, lo: int, n: nat) -> TopTwo
    decreases n,
{
    if n == 0 {
        no_partners()
    } else {
        let i = lo + n - 1;
        update_top_two_spec(
            column_partners(matrix, j, lo, (n - 1) as nat),
            matrix[i * GF3258_MATCH_SCORE_MATRIX_STRIDE + j] as i32,
            i as i32,
        )
    }
}

/// The partners of every live point within its polarity.
pub open spec fn recovery_partners(
    matrix: Seq<u8>,
    enrolled_count: nat,
    enrolled_split: int,
    live_count: nat,
    live_split: int,
) -> Seq<TopTwo> {
    Seq::new(
        live_count,
        |j: int|
            if j < live_split {
                column_partners(matrix, j, 0, enrolled_split as nat)
            } else {
                column_partners(
                    matrix,
                    j,
                    enrolled_split,
                    (enrolled_count - enrolled_split) as nat,
                )
            },
    )
}

/// Pair slots in storage order; free slots hold `[-1, -1]`.
pub open spec fn slots_hold(slots: Seq<[i32; 2]>, pairs: Seq<(i32, i32)>) -> bool {
    &&& slots.len() == GF3258_MATCH_MAX_CANDIDATE_PAIRS
    &&& pairs.len() <= GF3258_MATCH_MAX_CANDIDATE_PAIRS
    &&& forall|k: int|
        0 <= k < slots.len() ==> (#[trigger] slots[k])@[0] == (if k < pairs.len() {
            pairs[k].0
        } else {
            -1i32
        }) && slots[k]@[1] == (if k < pairs.len() {
            pairs[k].1
        } else {
            -1i32
        })
}

/// Kept nominations of live points as `(enrolled, live)` pairs.
pub open spec fn swapped_pairs(kept: Seq<Nomination>) -> Seq<(i32, i32)> {
    Seq::new(kept.len(), |k: int| (kept[k].target, kept[k].source))
}

/// Kept nominations of enrolled points as `(enrolled, live)` pairs.
pub open spec fn direct_pairs(kept: Seq<Nomination>) -> Seq<(i32, i32)> {
    Seq::new(kept.len(), |k: int| (kept[k].source, kept[k].target))
}

/// A best index lies below the end of the scanned rows.
proof fn lemma_column_partners(matrix: Seq<u8>, j: int, lo: int, n: nat)
    requires
        0 <= lo,
    ensures
        column_partners(matrix, j, lo, n).best_index < lo + n,
    decreases n,
{
    if n > 0 {
        lemma_column_partners(matrix, j, lo, (n - 1) as nat);
    }
}

fn scan_column(matrix: &[u8], j: usize, lo: usize, hi: usize) -> (t: TopTwo)
    requires
        j < GF3258_MATCH_SCORE_MATRIX_STRIDE,
        lo <= hi,
        hi * GF3258_MATCH_SCORE_MATRIX_STRIDE <= matrix@.len(),
    ensures
        t == column_partners(matrix@, j as int, lo as int, (hi - lo) as nat),
{
    let mut t: TopTwo = TopTwo {
        best: GF3258_MATCH_SCORE_SENTINEL,
        second: GF3258_MATCH_SCORE_SENTINEL,
        best_index: -1,
        second_index: -1,
    };
    let total: usize = matrix.len();
    for i in lo..hi
        invariant
            j < GF3258_MATCH_SCORE_MATRIX_STRIDE,
            lo <= hi,
            total == matrix@.len(),
            hi * GF3258_MATCH_SCORE_MATRIX_STRIDE <= total,
            t == column_partners(matrix@, j as int, lo as int, (i - lo) as nat),
    {
        t = gf3258_update_top_two(
            t,
            matrix[i * GF3258_MATCH_SCORE_MATRIX_STRIDE + j] as i32,
            i as i32,
        );
    }
    t
}

/// The first error of a recovery selection, if any.
pub open spec fn recovery_error(
    enrolled_count: nat,
    enrolled_split: usize,
    live_count: nat,
    live_split: usize,
    config: Gf3258CandidateMatcherConfig,
    matrix_len: nat,
) -> Option<Gf3258CandidateMatchError> {
    if enrolled_split > enrolled_count {
        Some(
            Gf3258CandidateMatchError::InvalidPolaritySplit {
                side: "enrolled recovery",
                split: enrolled_split,
                point_count: enrolled_count as usize,
            },
        )
    } else if live_split > live_count {
        Some(
            Gf3258CandidateMatchError::InvalidPolaritySplit {
                side: "live recovery",
                split: live_split,
                point_count: live_count as usize,
            },
        )
    } else if live_count > GF3258_MATCH_SCORE_MATRIX_STRIDE {
        Some(
            Gf3258CandidateMatchError::TooManyLivePoints {
                actual: live_count as usize,
                maximum: GF3258_MATCH_SCORE_MATRIX_STRIDE,
            },
        )
    } else if config.ambiguity_best_multiplier < 0 {
        Some(
            Gf3258CandidateMatchError::InvalidThreshold {
                field: "ambiguity_best_multiplier",
                value: config.ambiguity_best_multiplier,
            },
        )
    } else if config.ambiguity_second_multiplier < 0 {
        Some(
            Gf3258CandidateMatchError::InvalidThreshold {
                field: "ambiguity_second_multiplier",
                value: config.ambiguity_second_multiplier,
            },
        )
    } else if matrix_len < enrolled_count * GF3258_MATCH_SCORE_MATRIX_STRIDE as nat {
        Some(
            Gf3258CandidateMatchError::RecoveryScoreMatrixTooSmall {
                actual: matrix_len as usize,
                required: if enrolled_count * GF3258_MATCH_SCORE_MATRIX_STRIDE as nat > usize::MAX {
                    usize::MAX
                } else {
                    (enrolled_count * GF3258_MATCH_SCORE_MATRIX_STRIDE as nat) as usize
                },
            },
        )
    } else {
        None
    }
}

/// Selects pairs from a score matrix in the inverse direction: every live point
/// nominates its best enrolled point, and collisions are judged by the enrolled
/// positions.
pub fn gf3258_generate_recovery_pair_slots_from_score_matrix(
    enrolled: &[Gf3258RecoveryEnrolledPoint],
    enrolled_polarity_split: usize,
    live: Gf3258MatcherFeatureSet<'_>,
    config: Gf3258CandidateMatcherConfig,
    score_matrix: &[u8],
) -> (result: Result<[[i32; 2]; 31], Gf3258CandidateMatchError>)
    ensures
        match recovery_error(
            enrolled@.len(),
            enrolled_polarity_split,
            live.points@.len(),
            live.polarity_split,
            config,
            score_matrix@.len(),
        ) {
            Some(error) => result == Err::<[[i32; 2]; 31], Gf3258CandidateMatchError>(error),
            None => result is Ok && slots_hold(
                result->Ok_0@,
                swapped_pairs(
                    selection(
                        recovery_partners(
                            score_matrix@,
                            enrolled@.len(),
                            enrolled_polarity_split as int,
                            live.points@.len(),
                            live.polarity_split as int,
                        ),
                        enrolled@,
                        config.ambiguity_best_multiplier,
                        config.ambiguity_second_multiplier,
                        live.points@.len(),
                    ),
                ),
            ),
        },
{
    if enrolled_polarity_split > enrolled.len() {
        return Err(
            Gf3258CandidateMatchError::InvalidPolaritySplit {
                side: "enrolled recovery",
                split: enrolled_polarity_split,
                point_count: enrolled.len(),
            },
        );
    }
    if live.polarity_split > live.points.len() {
        return Err(
            Gf3258CandidateMatchError::InvalidPolaritySplit {
                side: "live recovery",
                split: live.polarity_split,
                point_count: live.points.len(),
            },
        );
    }
    if live.points.len() > GF3258_MATCH_SCORE_MATRIX_STRIDE {
        return Err(
            Gf3258CandidateMatchError::TooManyLivePoints {
                actual: live.points.len(),
                maximum: GF3258_MATCH_SCORE_MATRIX_STRIDE,
            },
        );
    }
    if config.ambiguity_best_multiplier < 0 {
        return Err(
            Gf3258CandidateMatchError::InvalidThreshold {
                field: "ambiguity_best_multiplier",
                value: config.ambiguity_best_multiplier,
            },
        );
    }
    if config.ambiguity_second_multiplier < 0 {
        return Err(
            Gf3258CandidateMatchError::InvalidThreshold {
                field: "ambiguity_second_multiplier",
                value: config.ambiguity_second_multiplier,
            },
        );
    }
    let required: usize = if enrolled.len() > usize::MAX / GF3258_MATCH_SCORE_MATRIX_STRIDE {
        usize::MAX
    } else {
        enrolled.len() * GF3258_MATCH_SCORE_MATRIX_STRIDE
    };
    if enrolled.len() > usize::MAX / GF3258_MATCH_SCORE_MATRIX_STRIDE || score_matrix.len()
        < required {
        return Err(
            Gf3258CandidateMatchError::RecoveryScoreMatrixTooSmall {
                actual: score_matrix.len(),
                required,
            },
        );
    }
    let ghost goal = recovery_partners(
        score_matrix@,
        enrolled@.len(),
        enrolled_polarity_split as int,
        live.points@.len(),
        live.polarity_split as int,
    );
    let mut partners: Vec<TopTwo> = Vec::with_capacity(live.points.len());
    for j in 0..live.points.len()
        invariant
            enrolled_polarity_split <= enrolled@.len(),
            live.points@.len() <= GF3258_MATCH_SCORE_MATRIX_STRIDE,
            enrolled@.len() * GF3258_MATCH_SCORE_MATRIX_STRIDE <= score_matrix@.len(),
            goal == recovery_partners(
                score_matrix@,
                enrolled@.len(),
                enrolled_polarity_split as int,
                live.points@.len(),
                live.polarity_split as int,
            ),
            partners@.len() == j,
            forall|k: int| 0 <= k < j ==> #[trigger] partners@[k] == goal[k],
            forall|k: int|
                0 <= k < j ==> (#[trigger] partners@[k]).best_index < enrolled@.len(),
    {
        if j < live.polarity_split {
            proof {
                lemma_column_partners(score_matrix@, j as int, 0, enrolled_polarity_split as nat);
            }
            partners.push(scan_column(score_matrix, j, 0, enrolled_polarity_split));
        } else {
            proof {
                lemma_column_partners(
                    score_matrix@,
                    j as int,
                    enrolled_polarity_split as int,
                    (enrolled@.len() - enrolled_polarity_split) as nat,
                );
            }
            partners.push(
                scan_column(score_matrix, j, enrolled_polarity_split, enrolled.len()),
            );
        }
    }
    proof {
        assert(partners@ =~= goal);
    }
    let mut positions: Vec<Gf3258RecoveryEnrolledPoint> = Vec::with_capacity(enrolled.len());
    for i in 0..enrolled.len()
        invariant
            positions@.len() == i,
            forall|k: int| 0 <= k < i ==> #[trigger] positions@[k] == enrolled@[k],
    {
        positions.push(enrolled[i]);
    }
    proof {
        assert(positions@ =~= enrolled@);
    }
    let kept: Vec<Nomination> = select_nominations(
        &partners,
        &positions,
        config.ambiguity_best_multiplier,
        config.ambiguity_second_multiplier,
    );
    let mut slots: [[i32; 2]; 31] = [[-1i32, -1i32];31];
    for k in 0..kept.len()
        invariant
            kept@.len() <= GF3258_MATCH_MAX_CANDIDATE_PAIRS,
            forall|m: int|
                0 <= m < 31 ==> (#[trigger] slots@[m])@[0] == (if m < k {
                    kept@[m].target
                } else {
                    -1i32
                }) && slots@[m]@[1] == (if m < k {
                    kept@[m].source
                } else {
                    -1i32
                }),
    {
        slots[k] = [kept[k].target, kept[k].source];
    }
    Ok(slots)
}

/// `r` holds the bits of `word` in opposite order.
pub open spec fn is_bit_reversal(r: u32, word: u32) -> bool {
    forall|k: u32| k < 32 ==> #[trigger] (r >> k) & 1 == (word >> ((31 - k) as u32)) & 1
}

fn reversed_bits(word: u32) -> (r: u32)
    ensures
        is_bit_reversal(r, word),
{
    let a: u32 = ((word >> 1) & 0x5555_5555) | ((word & 0x5555_5555) << 1);
    let b: u32 = ((a >> 2) & 0x3333_3333) | ((a & 0x3333_3333) << 2);
    let c: u32 = ((b >> 4) & 0x0f0f_0f0f) | ((b & 0x0f0f_0f0f) << 4);
    let d: u32 = ((c >> 8) & 0x00ff_00ff) | ((c & 0x00ff_00ff) << 8);
    let r: u32 = (d >> 16) | (d << 16);
    proof {
        assert forall|k: u32| k < 32 implies #[trigger] (r >> k) & 1 == (word >> ((31
            - k) as u32)) & 1 by {
            assert((r >> k) & 1 == (word >> ((31 - k) as u32)) & 1) by (bit_vector)
                requires
                    k < 32,
                    a == ((word >> 1) & 0x5555_5555) | ((word & 0x5555_5555) << 1),
                    b == ((a >> 2) & 0x3333_3333) | ((a & 0x3333_3333) << 2),
                    c == ((b >> 4) & 0x0f0f_0f0f) | ((b & 0x0f0f_0f0f) << 4),
                    d == ((c >> 8) & 0x00ff_00ff) | ((c & 0x00ff_00ff) << 8),
                    r == (d >> 16) | (d << 16),
            ;
        }
    }
    r
}

/// The word whose bytes are those of `word` in opposite order.
pub open spec fn swapped_bytes(word: u32) -> int {
    (word % 256) * 16777216 + ((word / 256) % 256) * 65536 + ((word / 65536) % 256) * 256 + word
        / 16777216
}

fn swap_word_bytes(word: u32) -> (r: u32)
    ensures
        r == swapped_bytes(word),
{
    (word % 256) * 16777216 + ((word / 256) % 256) * 65536 + ((word / 65536) % 256) * 256 + word
        / 16777216
}

/// `m` is the matcher point of a freshly extracted point.
pub open spec fn is_primary_projection(
    m: Gf3258MatcherPoint,
    point: Gf3258ExtractedPrimaryPoint,
    polarity: u16,
) -> bool {
    let compact = point.descriptor.compact;
    &&& m.polarity == polarity
    &&& m.x_q8 == point.core.x_q8
    &&& m.y_q8 == point.core.y_q8
    &&& m.orientation_q12 == point.core.orientation_q12
    &&& m.descriptor_10_1f@ == compact.point_bytes().take(16)
    &&& m.hash20 == compact.median_hash_128
    &&& m.hash24 == 0
    &&& m.hash28 == compact.hadamard_hash_32
    &&& m.hash30 == 0
}

/// `m` is the verification-side matcher point of a freshly extracted point, and
/// `rescue` its rescue data.
pub open spec fn is_verification_projection(
    m: Gf3258MatcherPoint,
    rescue: Gf3258RescuePointData,
    point: Gf3258ExtractedPrimaryPoint,
    polarity: u16,
) -> bool {
    let compact = point.descriptor.compact;
    &&& m.polarity == polarity
    &&& m.x_q8 == point.core.x_q8
    &&& m.y_q8 == point.core.y_q8
    &&& m.orientation_q12 == point.core.orientation_q12
    &&& m.descriptor_10_1f@ == bf420_spec(compact.point_bytes().take(16))
    &&& m.hash20 == compact.median_hash_128
    &&& is_bit_reversal(m.hash24, compact.median_hash_128)
    &&& m.hash28 == compact.hadamard_hash_32
    &&& m.hash30 == compact.hadamard_hash_32 ^ 0x00ff_ff00
    &&& rescue.edge_class == edge_class_spec(point.core.y_q8)
    &&& rescue.hash2c == compact.median_hash_32
    &&& rescue.hash34 == swapped_bytes(compact.median_hash_32)
}

impl Gf3258MatcherPoint {
    /// The matcher point of a freshly extracted point.
    pub fn from_extracted_primary(point: &Gf3258ExtractedPrimaryPoint, polarity: u16) -> (m: Self)
        ensures
            is_primary_projection(m, *point, polarity),
    {
        let compact: &Gf3258CompactDescriptor = point.compact_descriptor();
        let stored: [u8; 32] = compact.feature_point_bytes_10_2f();
        let mut descriptor_10_1f: [u8; 16] = [0u8;16];
        for i in 0..16usize
            invariant
                forall|j: int| 0 <= j < i ==> descriptor_10_1f@[j] == stored@[j],
        {
            descriptor_10_1f[i] = stored[i];
        }
        proof {
            assert(descriptor_10_1f@ =~= stored@.take(16));
        }
        Gf3258MatcherPoint {
            polarity,
            x_q8: point.core.x_q8,
            y_q8: point.core.y_q8,
            orientation_q12: point.core.orientation_q12,
            descriptor_10_1f,
            hash20: compact.median_hash_128,
            hash24: 0,
            hash28: compact.hadamard_hash_32,
            hash30: 0,
        }
    }
}

/// Polarities of extracted points.
pub open spec fn extracted_polarities(points: Seq<Gf3258ExtractedPrimaryPoint>) -> Seq<u16> {
    Seq::new(points.len(), |i: int| polarity_of(points[i].candidate.raw.response))
}

fn polarities_of(points: &Vec<Gf3258ExtractedPrimaryPoint>) -> (classes: Vec<u16>)
    ensures
        classes@ == extracted_polarities(points@),
{
    let mut classes: Vec<u16> = Vec::with_capacity(points.len());
    for i in 0..points.len()
        invariant
            classes@.len() == i,
            forall|j: int| 0 <= j < i ==> classes@[j] == extracted_polarities(points@)[j],
    {
        classes.push(gf3258_matcher_polarity_from_raw_response(points[i].candidate.raw.response));
    }
    proof {
        assert(classes@ =~= extracted_polarities(points@));
    }
    classes
}

/// The matcher points of a freshly extracted feature, partitioned by polarity.
#[derive(Debug, Clone, PartialEq, Eq)]
pub struct Gf3258OwnedMatcherFeature {
    pub points: Vec<Gf3258MatcherPoint>,
    pub polarity_split: usize,
}

impl Gf3258OwnedMatcherFeature {
    pub fn from_primary_extraction(extraction: &Gf3258PrimaryFeatureExtraction) -> (feature: Self)
        ensures
            ({
                let (order, split) = partition_spec(extracted_polarities(extraction.points@));
                &&& feature.points@.len() == extraction.points@.len()
                &&& feature.polarity_split == split
                &&& split <= feature.points@.len()
                &&& forall|i: int|
                    0 <= i < feature.points@.len() ==> is_primary_projection(
                        #[trigger] feature.points@[i],
                        extraction.points@[order[i]],
                        extracted_polarities(extraction.points@)[order[i]],
                    )
            }),
    {
        let classes: Vec<u16> = polarities_of(&extraction.points);
        let (order, polarity_split): (Vec<usize>, usize) = partition_order(&classes);
        let ghost model = partition_spec(classes@).0;
        let mut points: Vec<Gf3258MatcherPoint> = Vec::with_capacity(order.len());
        for i in 0..order.len()
            invariant
                order@.len() == classes@.len(),
                classes@ == extracted_polarities(extraction.points@),
                is_permutation(model, classes@.len()),
                forall|j: int| 0 <= j < order@.len() ==> #[trigger] order@[j] == model[j],
                points@.len() == i,
                forall|j: int|
                    0 <= j < i ==> is_primary_projection(
                        #[trigger] points@[j],
                        extraction.points@[model[j]],
                        classes@[model[j]],
                    ),
        {
            let at: usize = order[i];
            assert(at == model[i as int]);
            points.push(
                Gf3258MatcherPoint::from_extracted_primary(&extraction.points[at], classes[at]),
            );
        }
        Gf3258OwnedMatcherFeature { points, polarity_split }
    }

    pub fn as_feature_set(&self) -> (set: Gf3258MatcherFeatureSet<'_>)
        ensures
            set.points@ == self.points@,
            set.polarity_split == self.polarity_split,
    {
        Gf3258MatcherFeatureSet {
            points: self.points.as_slice(),
            polarity_split: self.polarity_split,
        }
    }
}

/// The verification-side matcher points of a freshly extracted feature,
/// partitioned by polarity, with the rescue data of each point.
#[derive(Debug, Clone, PartialEq, Eq)]
pub struct Gf3258OwnedVerificationMatcherFeature {
    matcher: Gf3258OwnedMatcherFeature,
    rescue: Vec<Gf3258RescuePointData>,
}

impl Gf3258OwnedVerificationMatcherFeature {
    pub closed spec fn points(&self) -> Seq<Gf3258MatcherPoint> {
        self.matcher.points@
    }

    pub closed spec fn split(&self) -> usize {
        self.matcher.polarity_split
    }

    pub closed spec fn rescue(&self) -> Seq<Gf3258RescuePointData> {
        self.rescue@
    }

    pub fn from_primary_extraction(extraction: &Gf3258PrimaryFeatureExtraction) -> (feature: Self)
        ensures
            ({
                let (order, split) = partition_spec(extracted_polarities(extraction.points@));
                &&& feature.points().len() == extraction.points@.len()
                &&& feature.rescue().len() == extraction.points@.len()
                &&& feature.split() == split
                &&& split <= feature.points().len()
                &&& forall|i: int|
                    0 <= i < feature.points().len() ==> is_verification_projection(
                        #[trigger] feature.points()[i],
                        feature.rescue()[i],
                        extraction.points@[order[i]],
                        extracted_polarities(extraction.points@)[order[i]],
                    )
            }),
    {
        let classes: Vec<u16> = polarities_of(&extraction.points);
        let (order, polarity_split): (Vec<usize>, usize) = partition_order(&classes);
        let ghost model = partition_spec(classes@).0;
        let mut points: Vec<Gf3258MatcherPoint> = Vec::with_capacity(order.len());
        let mut rescue: Vec<Gf3258RescuePointData> = Vec::with_capacity(order.len());
        for i in 0..order.len()
            invariant
                order@.len() == classes@.len(),
                classes@ == extracted_polarities(extraction.points@),
                is_permutation(model, classes@.len()),
                forall|j: int| 0 <= j < order@.len() ==> #[trigger] order@[j] == model[j],
                points@.len() == i,
                rescue@.len() == i,
                forall|j: int|
                    0 <= j < i ==> is_verification_projection(
                        #[trigger] points@[j],
                        rescue@[j],
                        extraction.points@[model[j]],
                        classes@[model[j]],
                    ),
        {
            let at: usize = order[i];
            assert(at == model[i as int]);
            let point: &Gf3258ExtractedPrimaryPoint = &extraction.points[at];
            let fresh: Gf3258MatcherPoint = Gf3258MatcherPoint::from_extracted_primary(
                point,
                classes[at],
            );
            let hash2c: u32 = point.compact_descriptor().median_hash_32;
            rescue.push(
                Gf3258RescuePointData {
                    edge_class: gf3258_matcher_edge_class(fresh.y_q8),
                    hash2c,
                    hash34: swap_word_bytes(hash2c),
                },
            );
            points.push(
                Gf3258MatcherPoint {
                    polarity: fresh.polarity,
                    x_q8: fresh.x_q8,
                    y_q8: fresh.y_q8,
                    orientation_q12: fresh.orientation_q12,
                    descriptor_10_1f: gf3258_bf420_descriptor(fresh.descriptor_10_1f),
                    hash20: fresh.hash20,
                    hash24: reversed_bits(fresh.hash20),
                    hash28: fresh.hash28,
                    hash30: fresh.hash28 ^ 0x00ff_ff00,
                },
            );
        }
        Gf3258OwnedVerificationMatcherFeature {
            matcher: Gf3258OwnedMatcherFeature { points, polarity_split },
            rescue,
        }
    }

    pub fn as_feature_set(&self) -> (set: Gf3258MatcherFeatureSet<'_>)
        ensures
            set.points@ == self.points(),
            set.polarity_split == self.split(),
    {
        self.matcher.as_feature_set()
    }

    pub fn point_count(&self) -> (count: usize)
        ensures
            count == self.points().len(),
    {
        self.matcher.points.len()
    }

    /// The rescue data, in the order of the points.
    pub fn rescue_data(&self) -> (data: &[Gf3258RescuePointData])
        ensures
            data@ == self.rescue(),
    {
        self.rescue.as_slice()
    }
}

/// Candidate generation of an enrolled feature against a live one.
#[derive(Debug, Clone, PartialEq, Eq)]
pub struct Gf3258CandidateGeneration {
    /// Per enrolled point: best and second-best score.
    pub best_scores: Vec<[i32; 2]>,
    /// Per enrolled point: live indices of the two scores.
    pub best_live_indices: Vec<[i32; 2]>,
    /// Scores, one row per enrolled point; unmeasured pairs hold 0xff.
    pub pair_score_matrix: Vec<u8>,
    /// Whether the stored descriptor mode won; a tie goes to the alternate mode.
    pub pair_normal_mode_matrix: Vec<bool>,
    pub selected: Vec<Gf3258SelectedCorrespondence>,
    /// Selected `(enrolled, live)` pairs; free slots hold `[-1, -1]`.
    pub pair_slots: [[i32; 2]; 31],
}

/// The two best live partners of an enrolled point among `lo..lo + n`.
pub open spec fn row_partners(
    enrolled: Gf3258EnrolledCandidatePoint,
    live: Seq<Gf3258MatcherPoint>,
    config: Gf3258CandidateMatcherConfig,
    lo: int,
    n: nat,
) -> TopTwo
    decreases n,
{
    if n == 0 {
        no_partners()
    } else {
        let j = lo + n - 1;
        let t = row_partners(enrolled, live, config, lo, (n - 1) as nat);
        match pair_score_spec(enrolled, live[j], config) {
            Some(score) => update_top_two_spec(t, score.selected_total, j as i32),
            None => t,
        }
    }
}

/// First live index that enrolled point `i` is compared with.
pub open spec fn row_start(i: int, enrolled_split: int, live_split: int) -> int {
    if i < enrolled_split {
        0
    } else {
        live_split
    }
}

/// End of the live indices that enrolled point `i` is compared with.
pub open spec fn row_end(i: int, enrolled_split: int, live_count: nat, live_split: int) -> int {
    if i < enrolled_split {
        live_split
    } else {
        live_count as int
    }
}

/// The partners of every enrolled point within its polarity.
pub open spec fn generation_partners(
    enrolled: Seq<Gf3258EnrolledCandidatePoint>,
    enrolled_split: int,
    live: Seq<Gf3258MatcherPoint>,
    live_split: int,
    config: Gf3258CandidateMatcherConfig,
) -> Seq<TopTwo> {
    Seq::new(
        enrolled.len(),
        |i: int|
            row_partners(
                enrolled[i],
                live,
                config,
                row_start(i, enrolled_split, live_split),
                (row_end(i, enrolled_split, live.len(), live_split) - row_start(
                    i,
                    enrolled_split,
                    live_split,
                )) as nat,
            ),
    )
}

/// Entry `(i, j)` of the score and mode matrices.
pub open spec fn matrix_entry(
    enrolled: Seq<Gf3258EnrolledCandidatePoint>,
    enrolled_split: int,
    live: Seq<Gf3258MatcherPoint>,
    live_split: int,
    config: Gf3258CandidateMatcherConfig,
    i: int,
    j: int,
) -> (u8, bool) {
    if row_start(i, enrolled_split, live_split) <= j < row_end(
        i,
        enrolled_split,
        live.len(),
        live_split,
    ) {
        match pair_score_spec(enrolled[i], live[j], config) {
            Some(score) => (
                score.selected_total as u8,
                score.selected_mode == Gf3258MatchDescriptorMode::Normal,
            ),
            None => (0xffu8, false),
        }
    } else {
        (0xffu8, false)
    }
}

/// The matrices hold the entries of every row.
pub open spec fn matrices_hold(
    scores: Seq<u8>,
    modes: Seq<bool>,
    enrolled: Seq<Gf3258EnrolledCandidatePoint>,
    enrolled_split: int,
    live: Seq<Gf3258MatcherPoint>,
    live_split: int,
    config: Gf3258CandidateMatcherConfig,
) -> bool {
    &&& scores.len() == enrolled.len() * GF3258_MATCH_SCORE_MATRIX_STRIDE as nat
    &&& modes.len() == scores.len()
    &&& forall|k: int|
        0 <= k < scores.len() ==> (#[trigger] scores[k], modes[k]) == matrix_entry(
            enrolled,
            enrolled_split,
            live,
            live_split,
            config,
            k / GF3258_MATCH_SCORE_MATRIX_STRIDE as int,
            k % GF3258_MATCH_SCORE_MATRIX_STRIDE as int,
        )
}

/// `g` is the candidate generation of the two features.
pub open spec fn is_generation_of(
    g: Gf3258CandidateGeneration,
    enrolled: Seq<Gf3258EnrolledCandidatePoint>,
    enrolled_split: int,
    live: Seq<Gf3258MatcherPoint>,
    live_split: int,
    config: Gf3258CandidateMatcherConfig,
) -> bool {
    let partners = generation_partners(enrolled, enrolled_split, live, live_split, config);
    let kept = selection(
        partners,
        live_positions(live),
        config.ambiguity_best_multiplier,
        config.ambiguity_second_multiplier,
        enrolled.len(),
    );
    &&& g.best_live_indices@.len() == g.best_scores@.len()
    &&& partners_of(g.best_scores@, g.best_live_indices@) == partners
    &&& matrices_hold(
        g.pair_score_matrix@,
        g.pair_normal_mode_matrix@,
        enrolled,
        enrolled_split,
        live,
        live_split,
        config,
    )
    &&& g.selected@ == correspondences(kept)
    &&& slots_hold(g.pair_slots@, direct_pairs(kept))
}

/// The first error of a candidate generation, if any.
pub open spec fn generation_error(
    enrolled_count: nat,
    enrolled_split: usize,
    live_count: nat,
    live_split: usize,
    config: Gf3258CandidateMatcherConfig,
) -> Option<Gf3258CandidateMatchError> {
    if enrolled_split > enrolled_count {
        Some(
            Gf3258CandidateMatchError::InvalidPolaritySplit {
                side: "enrolled",
                split: enrolled_split,
                point_count: enrolled_count as usize,
            },
        )
    } else if live_split > live_count {
        Some(
            Gf3258CandidateMatchError::InvalidPolaritySplit {
                side: "live",
                split: live_split,
                point_count: live_count as usize,
            },
        )
    } else if live_count > GF3258_MATCH_SCORE_MATRIX_STRIDE {
        Some(
            Gf3258CandidateMatchError::TooManyLivePoints {
                actual: live_count as usize,
                maximum: GF3258_MATCH_SCORE_MATRIX_STRIDE,
            },
        )
    } else if config.first_half_hamming_max < 0 {
        Some(
            Gf3258CandidateMatchError::InvalidThreshold {
                field: "first_half_hamming_max",
                value: config.first_half_hamming_max,
            },
        )
    } else if config.descriptor_mode_hamming_max < 0 {
        Some(
            Gf3258CandidateMatchError::InvalidThreshold {
                field: "descriptor_mode_hamming_max",
                value: config.descriptor_mode_hamming_max,
            },
        )
    } else if config.ambiguity_best_multiplier < 0 {
        Some(
            Gf3258CandidateMatchError::InvalidThreshold {
                field: "ambiguity_best_multiplier",
                value: config.ambiguity_best_multiplier,
            },
        )
    } else if config.ambiguity_second_multiplier < 0 {
        Some(
            Gf3258CandidateMatchError::InvalidThreshold {
                field: "ambiguity_second_multiplier",
                value: config.ambiguity_second_multiplier,
            },
        )
    } else {
        None
    }
}

/// Score of an enrolled point and live point `j`, where they have one.
pub open spec fn live_score(
    enrolled: Gf3258EnrolledCandidatePoint,
    live: Seq<Gf3258MatcherPoint>,
    config: Gf3258CandidateMatcherConfig,
    j: int,
) -> Option<i32> {
    match pair_score_spec(enrolled, live[j], config) {
        Some(score) => Some(score.selected_total),
        None => None,
    }
}

/// No live point of `lo..hi` other than `except` scores below `least`.
pub open spec fn none_below(
    enrolled: Gf3258EnrolledCandidatePoint,
    live: Seq<Gf3258MatcherPoint>,
    config: Gf3258CandidateMatcherConfig,
    lo: int,
    hi: int,
    except: int,
    least: i32,
) -> bool {
    forall|j: int|
        lo <= j < hi && j != except && #[trigger] live_score(enrolled, live, config, j) is Some
            ==> live_score(enrolled, live, config, j)->Some_0 >= least
}

/// `(score, index)` is the least score of the live points `lo..hi` other than
/// `except` and the first index that has it; or the sentinel and `-1`, where no
/// score is below the sentinel.
pub open spec fn is_least_live(
    enrolled: Gf3258EnrolledCandidatePoint,
    live: Seq<Gf3258MatcherPoint>,
    config: Gf3258CandidateMatcherConfig,
    lo: int,
    hi: int,
    except: int,
    score: i32,
    index: i32,
) -> bool {
    &&& none_below(enrolled, live, config, lo, hi, except, score)
    &&& score <= GF3258_MATCH_SCORE_SENTINEL
    &&& score == GF3258_MATCH_SCORE_SENTINEL ==> index == -1
    &&& score < GF3258_MATCH_SCORE_SENTINEL ==> {
        &&& lo <= index < hi
        &&& index != except
        &&& live_score(enrolled, live, config, index as int) == Some(score)
        &&& none_below(enrolled, live, config, lo, index as int, except, (score + 1) as i32)
    }
}

/// `t` holds the two smallest scores of the live points `lo..hi`, filled up with
/// the sentinel, in ascending order; equal scores go by the lower index.
pub open spec fn holds_two_smallest(
    t: TopTwo,
    enrolled: Gf3258EnrolledCandidatePoint,
    live: Seq<Gf3258MatcherPoint>,
    config: Gf3258CandidateMatcherConfig,
    lo: int,
    hi: int,
) -> bool {
    &&& t.best <= t.second
    &&& is_least_live(enrolled, live, config, lo, hi, -1, t.best, t.best_index)
    &&& is_least_live(
        enrolled,
        live,
        config,
        lo,
        hi,
        t.best_index as int,
        t.second,
        t.second_index,
    )
}

/// The partners of an enrolled point are those of its two smallest scores.
#[verifier::spinoff_prover]
#[verifier::rlimit(60)]
pub proof fn lemma_row_keeps_two_smallest(
    enrolled: Gf3258EnrolledCandidatePoint,
    live: Seq<Gf3258MatcherPoint>,
    config: Gf3258CandidateMatcherConfig,
    lo: int,
    n: nat,
)
    requires
        0 <= lo,
        lo + n <= i32::MAX,
    ensures
        holds_two_smallest(
            row_partners(enrolled, live, config, lo, n),
            enrolled,
            live,
            config,
            lo,
            lo + n,
        ),
        row_partners(enrolled, live, config, lo, n).best_index < lo + n,
    decreases n,
{
    if n > 0 {
        lemma_row_keeps_two_smallest(enrolled, live, config, lo, (n - 1) as nat);
        let j = lo + n - 1;
        let t = row_partners(enrolled, live, config, lo, (n - 1) as nat);
        assert(live_score(enrolled, live, config, j) == (match pair_score_spec(
            enrolled,
            live[j],
            config,
        ) {
            Some(score) => Some(score.selected_total),
            None => None,
        }));
    }
}

/// A score lies between zero and the sentinel.
proof fn lemma_pair_score_bound(
    enrolled: Gf3258EnrolledCandidatePoint,
    live: Gf3258MatcherPoint,
    config: Gf3258CandidateMatcherConfig,
)
    ensures
        pair_score_spec(enrolled, live, config) matches Some(score) ==> 0 <= score.selected_total
            <= GF3258_MATCH_SCORE_SENTINEL,
{
    let e = enrolled.descriptor_10_1f@;
    let l = live.descriptor_10_1f@;
    lemma_hamming_bytes_bound(e.subrange(0, 8), l.subrange(0, 8), 8);
    lemma_hamming_bytes_bound(e.subrange(8, 16), l.subrange(8, 16), 8);
    vstd::arithmetic::power2::lemma2_to64();
    lemma_popcount_bound((enrolled.hash20 ^ live.hash20) as nat, 32);
    lemma_popcount_bound((enrolled.hash28 ^ live.hash28) as nat, 32);
    lemma_popcount_bound((enrolled.hash20 ^ live.hash24) as nat, 32);
    lemma_popcount_bound((enrolled.hash28 ^ live.hash30) as nat, 32);
}

proof fn lemma_hamming_bytes_bound(a: Seq<u8>, b: Seq<u8>, n: nat)
    ensures
        hamming_bytes(a, b, n) <= 8 * n,
    decreases n,
{
    if n > 0 {
        lemma_hamming_bytes_bound(a, b, (n - 1) as nat);
        vstd::arithmetic::power2::lemma2_to64();
        lemma_popcount_bound((a[n - 1] ^ b[n - 1]) as nat, 8);
    }
}

/// A candidate generation keeps, for every enrolled point, the two smallest
/// scores with the live points of its polarity and the first index of each; and
/// its matrix holds the score of every such pair that has one, and `0xff`
/// elsewhere.
pub proof fn lemma_generation_keeps_two_smallest(
    g: Gf3258CandidateGeneration,
    enrolled: Seq<Gf3258EnrolledCandidatePoint>,
    enrolled_split: int,
    live: Seq<Gf3258MatcherPoint>,
    live_split: int,
    config: Gf3258CandidateMatcherConfig,
    i: int,
)
    requires
        is_generation_of(g, enrolled, enrolled_split, live, live_split, config),
        0 <= live_split <= live.len() <= GF3258_MATCH_SCORE_MATRIX_STRIDE,
        0 <= i < enrolled.len(),
    ensures
        g.best_scores@.len() == enrolled.len(),
        g.best_live_indices@.len() == enrolled.len(),
        ({
            let lo = row_start(i, enrolled_split, live_split);
            let hi = row_end(i, enrolled_split, live.len(), live_split);
            &&& holds_two_smallest(
                TopTwo {
                    best: g.best_scores@[i]@[0],
                    second: g.best_scores@[i]@[1],
                    best_index: g.best_live_indices@[i]@[0],
                    second_index: g.best_live_indices@[i]@[1],
                },
                enrolled[i],
                live,
                config,
                lo,
                hi,
            )
            &&& g.pair_score_matrix@.len() == enrolled.len() * GF3258_MATCH_SCORE_MATRIX_STRIDE
            &&& forall|j: int|
                0 <= j < GF3258_MATCH_SCORE_MATRIX_STRIDE
                    ==> #[trigger] g.pair_score_matrix@[i * GF3258_MATCH_SCORE_MATRIX_STRIDE + j]
                    == (if lo <= j < hi && live_score(enrolled[i], live, config, j) is Some {
                    live_score(enrolled[i], live, config, j)->Some_0 as int
                } else {
                    0xff
                })
        }),
{
    let lo = row_start(i, enrolled_split, live_split);
    let hi = row_end(i, enrolled_split, live.len(), live_split);
    let partners = generation_partners(enrolled, enrolled_split, live, live_split, config);
    lemma_row_keeps_two_smallest(enrolled[i], live, config, lo, (hi - lo) as nat);
    let held = partners_of(g.best_scores@, g.best_live_indices@);
    assert(held == partners);
    assert(held.len() == g.best_scores@.len() && partners.len() == enrolled.len());
    assert(held[i] == partners[i]);
    assert forall|j: int| 0 <= j < GF3258_MATCH_SCORE_MATRIX_STRIDE implies
        #[trigger] g.pair_score_matrix@[i * GF3258_MATCH_SCORE_MATRIX_STRIDE + j] == (if lo <= j
        < hi && live_score(enrolled[i], live, config, j) is Some {
        live_score(enrolled[i], live, config, j)->Some_0 as int
    } else {
        0xff
    }) by {
        let k = i * GF3258_MATCH_SCORE_MATRIX_STRIDE + j;
        assert(0 <= k < g.pair_score_matrix@.len() && k / 180 == i && k % 180 == j);
        lemma_pair_score_bound(enrolled[i], live[j], config);
        assert((g.pair_score_matrix@[k], g.pair_normal_mode_matrix@[k]) == matrix_entry(
            enrolled,
            enrolled_split,
            live,
            live_split,
            config,
            i,
            j,
        ));
    }
}

/// Scores one enrolled point against the live points `lo..hi` and appends its
/// row to the matrices.
fn scan_row(
    enrolled: &Gf3258EnrolledCandidatePoint,
    live: &[Gf3258MatcherPoint],
    config: Gf3258CandidateMatcherConfig,
    lo: usize,
    hi: usize,
    scores: &mut Vec<u8>,
    modes: &mut Vec<bool>,
) -> (t: TopTwo)
    requires
        lo <= hi <= live@.len() <= GF3258_MATCH_SCORE_MATRIX_STRIDE,
        old(scores)@.len() == old(modes)@.len(),
    ensures
        t == row_partners(*enrolled, live@, config, lo as int, (hi - lo) as nat),
        final(scores)@.len() == old(scores)@.len() + GF3258_MATCH_SCORE_MATRIX_STRIDE,
        final(modes)@.len() == final(scores)@.len(),
        forall|k: int|
            0 <= k < old(scores)@.len() ==> #[trigger] final(scores)@[k] == old(scores)@[k]
                && final(modes)@[k] == old(modes)@[k],
        forall|k: int|
            old(scores)@.len() <= k < final(scores)@.len() ==> {
                let j = k - old(scores)@.len();
                (#[trigger] final(scores)@[k], final(modes)@[k]) == (if lo <= j < hi {
                    match pair_score_spec(*enrolled, live@[j], config) {
                        Some(score) => (
                            score.selected_total as u8,
                            score.selected_mode == Gf3258MatchDescriptorMode::Normal,
                        ),
                        None => (0xffu8, false),
                    }
                } else {
                    (0xffu8, false)
                })
            },
{
    let ghost before = scores@;
    let ghost modes_before = modes@;
    let mut t: TopTwo = TopTwo {
        best: GF3258_MATCH_SCORE_SENTINEL,
        second: GF3258_MATCH_SCORE_SENTINEL,
        best_index: -1,
        second_index: -1,
    };
    for j in 0..GF3258_MATCH_SCORE_MATRIX_STRIDE
        invariant
            lo <= hi <= live@.len() <= GF3258_MATCH_SCORE_MATRIX_STRIDE,
            before.len() == modes_before.len(),
            scores@.len() == before.len() + j,
            modes@.len() == scores@.len(),
            t == row_partners(
                *enrolled,
                live@,
                config,
                lo as int,
                (if j < lo {
                    0
                } else if j < hi {
                    j - lo
                } else {
                    hi - lo
                }) as nat,
            ),
            forall|k: int| 0 <= k < before.len() ==> #[trigger] scores@[k] == before[k],
            forall|k: int| 0 <= k < before.len() ==> #[trigger] modes@[k] == modes_before[k],
            forall|k: int|
                before.len() <= k < scores@.len() ==> {
                    let j = k - before.len();
                    (#[trigger] scores@[k], modes@[k]) == (if lo <= j < hi {
                        match pair_score_spec(*enrolled, live@[j], config) {
                            Some(score) => (
                                score.selected_total as u8,
                                score.selected_mode == Gf3258MatchDescriptorMode::Normal,
                            ),
                            None => (0xffu8, false),
                        }
                    } else {
                        (0xffu8, false)
                    })
                },
    {
        let mut entry: u8 = 0xff;
        let mut mode: bool = false;
        if lo <= j && j < hi {
            match gf3258_point_pair_score_core(enrolled, &live[j], config) {
                Some(score) => {
                    entry = score.selected_total as u8;
                    mode =
                    match score.selected_mode {
                        Gf3258MatchDescriptorMode::Normal => true,
                        Gf3258MatchDescriptorMode::Alternate => false,
                    };
                    t = gf3258_update_top_two(t, score.selected_total, j as i32);
                },
                None => {},
            }
        }
        scores.push(entry);
        modes.push(mode);
    }
    t
}

/// Candidate generation over the enrolled side of the points.
fn gf3258_generate_match_candidates_core(
    enrolled: &[Gf3258EnrolledCandidatePoint],
    enrolled_polarity_split: usize,
    live: Gf3258MatcherFeatureSet<'_>,
    config: Gf3258CandidateMatcherConfig,
) -> (result: Result<Gf3258CandidateGeneration, Gf3258CandidateMatchError>)
    requires
        enrolled@.len() * GF3258_MATCH_SCORE_MATRIX_STRIDE <= usize::MAX,
    ensures
        match generation_error(
            enrolled@.len(),
            enrolled_polarity_split,
            live.points@.len(),
            live.polarity_split,
            config,
        ) {
            Some(error) => result == Err::<Gf3258CandidateGeneration, Gf3258CandidateMatchError>(
                error,
            ),
            None => result is Ok && is_generation_of(
                result->Ok_0,
                enrolled@,
                enrolled_polarity_split as int,
                live.points@,
                live.polarity_split as int,
                config,
            ),
        },
        result matches Ok(generated) ==> forall|k: int|
            0 <= k < generated.selected@.len() ==> {
                let s = #[trigger] generated.selected@[k];
                &&& config.ambiguity_best_multiplier.wrapping_mul(s.best_score)
                    < config.ambiguity_second_multiplier.wrapping_mul(s.second_best_score)
                &&& generated.pair_slots@[k]@[0] == s.enrolled_index
                &&& generated.pair_slots@[k]@[1] == s.live_index
            },
{
    if enrolled_polarity_split > enrolled.len() {
        return Err(
            Gf3258CandidateMatchError::InvalidPolaritySplit {
                side: "enrolled",
                split: enrolled_polarity_split,
                point_count: enrolled.len(),
            },
        );
    }
    if live.polarity_split > live.points.len() {
        return Err(
            Gf3258CandidateMatchError::InvalidPolaritySplit {
                side: "live",
                split: live.polarity_split,
                point_count: live.points.len(),
            },
        );
    }
    if live.points.len() > GF3258_MATCH_SCORE_MATRIX_STRIDE {
        return Err(
            Gf3258CandidateMatchError::TooManyLivePoints {
                actual: live.points.len(),
                maximum: GF3258_MATCH_SCORE_MATRIX_STRIDE,
            },
        );
    }
    if config.first_half_hamming_max < 0 {
        return Err(
            Gf3258CandidateMatchError::InvalidThreshold {
                field: "first_half_hamming_max",
                value: config.first_half_hamming_max,
            },
        );
    }
    if config.descriptor_mode_hamming_max < 0 {
        return Err(
            Gf3258CandidateMatchError::InvalidThreshold {
                field: "descriptor_mode_hamming_max",
                value: config.descriptor_mode_hamming_max,
            },
        );
    }
    if config.ambiguity_best_multiplier < 0 {
        return Err(
            Gf3258CandidateMatchError::InvalidThreshold {
                field: "ambiguity_best_multiplier",
                value: config.ambiguity_best_multiplier,
            },
        );
    }
    if config.ambiguity_second_multiplier < 0 {
        return Err(
            Gf3258CandidateMatchError::InvalidThreshold {
                field: "ambiguity_second_multiplier",
                value: config.ambiguity_second_multiplier,
            },
        );
    }
    let ghost goal = generation_partners(
        enrolled@,
        enrolled_polarity_split as int,
        live.points@,
        live.polarity_split as int,
        config,
    );
    let cells: usize = enrolled.len() * GF3258_MATCH_SCORE_MATRIX_STRIDE;
    let mut pair_score_matrix: Vec<u8> = Vec::with_capacity(cells);
    let mut pair_normal_mode_matrix: Vec<bool> = Vec::with_capacity(cells);
    let mut partners: Vec<TopTwo> = Vec::with_capacity(enrolled.len());
    let mut best_scores: Vec<[i32; 2]> = Vec::with_capacity(enrolled.len());
    let mut best_live_indices: Vec<[i32; 2]> = Vec::with_capacity(enrolled.len());
    for i in 0..enrolled.len()
        invariant
            enrolled_polarity_split <= enrolled@.len(),
            live.polarity_split <= live.points@.len() <= GF3258_MATCH_SCORE_MATRIX_STRIDE,
            goal == generation_partners(
                enrolled@,
                enrolled_polarity_split as int,
                live.points@,
                live.polarity_split as int,
                config,
            ),
            partners@.len() == i,
            best_scores@.len() == i,
            best_live_indices@.len() == i,
            pair_score_matrix@.len() == i * GF3258_MATCH_SCORE_MATRIX_STRIDE,
            pair_normal_mode_matrix@.len() == pair_score_matrix@.len(),
            forall|k: int| 0 <= k < i ==> #[trigger] partners@[k] == goal[k],
            forall|k: int|
                0 <= k < i ==> (#[trigger] partners@[k]).best_index < live.points@.len(),
            forall|k: int|
                0 <= k < i ==> partners_of(best_scores@, best_live_indices@)[k]
                    == #[trigger] partners@[k],
            forall|k: int|
                0 <= k < pair_score_matrix@.len() ==> (
                #[trigger] pair_score_matrix@[k], pair_normal_mode_matrix@[k]) == matrix_entry(
                    enrolled@,
                    enrolled_polarity_split as int,
                    live.points@,
                    live.polarity_split as int,
                    config,
                    k / GF3258_MATCH_SCORE_MATRIX_STRIDE as int,
                    k % GF3258_MATCH_SCORE_MATRIX_STRIDE as int,
                ),
    {
        let (lo, hi): (usize, usize) = if i < enrolled_polarity_split {
            (0, live.polarity_split)
        } else {
            (live.polarity_split, live.points.len())
        };
        let ghost scores_before = pair_score_matrix@;
        let ghost modes_before = pair_normal_mode_matrix@;
        let t: TopTwo = scan_row(
            &enrolled[i],
            live.points,
            config,
            lo,
            hi,
            &mut pair_score_matrix,
            &mut pair_normal_mode_matrix,
        );
        proof {
            lemma_row_keeps_two_smallest(
                enrolled@[i as int],
                live.points@,
                config,
                lo as int,
                (hi - lo) as nat,
            );
            assert(t == goal[i as int]);
            assert forall|k: int| 0 <= k < pair_score_matrix@.len() implies (
            #[trigger] pair_score_matrix@[k], pair_normal_mode_matrix@[k]) == matrix_entry(
                enrolled@,
                enrolled_polarity_split as int,
                live.points@,
                live.polarity_split as int,
                config,
                k / GF3258_MATCH_SCORE_MATRIX_STRIDE as int,
                k % GF3258_MATCH_SCORE_MATRIX_STRIDE as int,
            ) by {
                if k < scores_before.len() {
                    assert(pair_score_matrix@[k] == scores_before[k]);
                } else {
                    assert(k / GF3258_MATCH_SCORE_MATRIX_STRIDE as int == i);
                    assert(k % GF3258_MATCH_SCORE_MATRIX_STRIDE as int == k - scores_before.len());
                }
            }
        }
        partners.push(t);
        best_scores.push([t.best, t.second]);
        best_live_indices.push([t.best_index, t.second_index]);
    }
    proof {
        assert(partners@ =~= goal);
        assert(partners_of(best_scores@, best_live_indices@) =~= goal);
    }
    let positions: Vec<Gf3258RecoveryEnrolledPoint> = positions_of(live.points);
    let kept: Vec<Nomination> = select_nominations(
        &partners,
        &positions,
        config.ambiguity_best_multiplier,
        config.ambiguity_second_multiplier,
    );
    let mut pair_slots: [[i32; 2]; 31] = [[-1i32, -1i32];31];
    for k in 0..kept.len()
        invariant
            kept@.len() <= GF3258_MATCH_MAX_CANDIDATE_PAIRS,
            forall|m: int|
                0 <= m < 31 ==> (#[trigger] pair_slots@[m])@[0] == (if m < k {
                    kept@[m].source
                } else {
                    -1i32
                }) && pair_slots@[m]@[1] == (if m < k {
                    kept@[m].target
                } else {
                    -1i32
                }),
    {
        pair_slots[k] = [kept[k].source, kept[k].target];
    }
    let selected: Vec<Gf3258SelectedCorrespondence> = correspondences_of(&kept);
    Ok(
        Gf3258CandidateGeneration {
            best_scores,
            best_live_indices,
            pair_score_matrix,
            pair_normal_mode_matrix,
            selected,
            pair_slots,
        },
    )
}

/// The enrolled sides of matcher points.
pub open spec fn enrolled_sides(
    points: Seq<Gf3258MatcherPoint>,
) -> Seq<Gf3258EnrolledCandidatePoint> {
    Seq::new(points.len(), |i: int| points[i].enrolled_side())
}

/// Generates the candidate pairs of an enrolled and a live feature.
pub fn gf3258_generate_match_candidates(
    enrolled: Gf3258MatcherFeatureSet<'_>,
    live: Gf3258MatcherFeatureSet<'_>,
    config: Gf3258CandidateMatcherConfig,
) -> (result: Result<Gf3258CandidateGeneration, Gf3258CandidateMatchError>)
    requires
        enrolled.points@.len() * GF3258_MATCH_SCORE_MATRIX_STRIDE <= usize::MAX,
    ensures
        match generation_error(
            enrolled.points@.len(),
            enrolled.polarity_split,
            live.points@.len(),
            live.polarity_split,
            config,
        ) {
            Some(error) => result == Err::<Gf3258CandidateGeneration, Gf3258CandidateMatchError>(
                error,
            ),
            None => result is Ok && is_generation_of(
                result->Ok_0,
                enrolled_sides(enrolled.points@),
                enrolled.polarity_split as int,
                live.points@,
                live.polarity_split as int,
                config,
            ),
        },
        result matches Ok(generated) ==> forall|k: int|
            0 <= k < generated.selected@.len() ==> {
                let s = #[trigger] generated.selected@[k];
                &&& config.ambiguity_best_multiplier.wrapping_mul(s.best_score)
                    < config.ambiguity_second_multiplier.wrapping_mul(s.second_best_score)
                &&& generated.pair_slots@[k]@[0] == s.enrolled_index
                &&& generated.pair_slots@[k]@[1] == s.live_index
            },
{
    let mut sides: Vec<Gf3258EnrolledCandidatePoint> = Vec::with_capacity(enrolled.points.len());
    for i in 0..enrolled.points.len()
        invariant
            sides@.len() == i,
            forall|j: int| 0 <= j < i ==> sides@[j] == enrolled_sides(enrolled.points@)[j],
    {
        sides.push(Gf3258EnrolledCandidatePoint::from(&enrolled.points[i]));
    }
    proof {
        assert(sides@ =~= enrolled_sides(enrolled.points@));
    }
    gf3258_generate_match_candidates_core(
        sides.as_slice(),
        enrolled.polarity_split,
        live,
        config,
    )
}

/// Generates the candidate pairs of a stored feature, of which only descriptors
/// and hashes are known, and a live one.
pub fn gf3258_generate_enrolled_match_candidates(
    enrolled: Gf3258EnrolledCandidateFeatureSet<'_>,
    live: Gf3258MatcherFeatureSet<'_>,
    config: Gf3258CandidateMatcherConfig,
) -> (result: Result<Gf3258CandidateGeneration, Gf3258CandidateMatchError>)
    requires
        enrolled.points@.len() * GF3258_MATCH_SCORE_MATRIX_STRIDE <= usize::MAX,
    ensures
        match generation_error(
            enrolled.points@.len(),
            enrolled.polarity_split,
            live.points@.len(),
            live.polarity_split,
            config,
        ) {
            Some(error) => result == Err::<Gf3258CandidateGeneration, Gf3258CandidateMatchError>(
                error,
            ),
            None => result is Ok && is_generation_of(
                result->Ok_0,
                enrolled.points@,
                enrolled.polarity_split as int,
                live.points@,
                live.polarity_split as int,
                config,
            ),
        },
        result matches Ok(generated) ==> forall|k: int|
            0 <= k < generated.selected@.len() ==> {
                let s = #[trigger] generated.selected@[k];
                &&& config.ambiguity_best_multiplier.wrapping_mul(s.best_score)
                    < config.ambiguity_second_multiplier.wrapping_mul(s.second_best_score)
                &&& generated.pair_slots@[k]@[0] == s.enrolled_index
                &&& generated.pair_slots@[k]@[1] == s.live_index
            },
{
    gf3258_generate_match_candidates_core(enrolled.points, enrolled.polarity_split, live, config)
}

/// A selection keeps at most one nomination per slot, and every kept target is
/// one of the positions, where the partners' best indices are.
pub proof fn lemma_selection_bounded(
    partners: Seq<TopTwo>,
    positions: Seq<Gf3258RecoveryEnrolledPoint>,
    best_multiplier: i32,
    second_multiplier: i32,
    n: nat,
)
    requires
        n <= partners.len(),
        forall|i: int|
            0 <= i < partners.len() ==> (#[trigger] partners[i]).best_index < positions.len(),
    ensures
        ({
            let kept = selection(partners, positions, best_multiplier, second_multiplier, n);
            &&& kept.len() <= GF3258_MATCH_MAX_CANDIDATE_PAIRS
            &&& kept.len() <= n
            &&& targets_valid(kept, positions.len())
        }),
    decreases n,
{
    if n > 0 {
        lemma_selection_bounded(
            partners,
            positions,
            best_multiplier,
            second_multiplier,
            (n - 1) as nat,
        );
        let kept = selection(
            partners,
            positions,
            best_multiplier,
            second_multiplier,
            (n - 1) as nat,
        );
        match nomination_of(partners[n - 1], n - 1, best_multiplier, second_multiplier) {
            Some(new) => {
                lemma_collision_scan(kept, new, positions, 0, false);
                let scanned = collision_scan(kept, new, positions, 0, false).0;
                lemma_worst_position(scanned, scanned.len());
            },
            None => {},
        }
    }
}

/// The worst position is the earliest one that holds the largest best score.
pub proof fn lemma_worst_position(kept: Seq<Nomination>, n: nat)
    requires
        n <= kept.len(),
    ensures
        0 <= worst_position(kept, n),
        n > 0 ==> worst_position(kept, n) < n,
        forall|i: int|
            0 <= i < n ==> (#[trigger] kept[i]).best <= kept[worst_position(kept, n)].best,
        forall|i: int|
            0 <= i < worst_position(kept, n) ==> (#[trigger] kept[i]).best
                < kept[worst_position(kept, n)].best,
    decreases n,
{
    if n > 1 {
        lemma_worst_position(kept, (n - 1) as nat);
    }
}

impl Gf3258CandidateMatchError {
    pub open spec fn message_spec(&self) -> Seq<char> {
        match self {
            Gf3258CandidateMatchError::InvalidPolaritySplit { side, split, point_count } => {
                "GF3258 matcher "@ + side@ + " polarity split "@ + text::decimal(*split as nat)
                    + " exceeds point count "@ + text::decimal(*point_count as nat)
            },
            Gf3258CandidateMatchError::TooManyLivePoints { actual, maximum } => {
                "GF3258 matcher has "@ + text::decimal(*actual as nat)
                    + " live points; vendor score rows hold at most "@
                    + text::decimal(*maximum as nat)
            },
            Gf3258CandidateMatchError::InvalidThreshold { field, value } => {
                "GF3258 matcher "@ + field@ + " must be non-negative; got "@
                    + text::signed_decimal(*value as int)
            },
            Gf3258CandidateMatchError::RecoveryScoreMatrixTooSmall { actual, required } => {
                "GF3258 recovery score matrix has "@ + text::decimal(*actual as nat)
                    + " bytes; at least "@ + text::decimal(*required as nat) + " are required"@
            },
        }
    }

    /// The message of this error.
    pub fn message(&self) -> (text: String)
        ensures
            text@ == self.message_spec(),
    {
        match self {
            Gf3258CandidateMatchError::InvalidPolaritySplit { side, split, point_count } => {
                let mut out: String = "GF3258 matcher ".to_owned();
                out.append(side);
                out.append(" polarity split ");
                text::push_decimal(&mut out, *split as u64);
                out.append(" exceeds point count ");
                text::push_decimal(&mut out, *point_count as u64);
                out
            },
            Gf3258CandidateMatchError::TooManyLivePoints { actual, maximum } => {
                let mut out: String = "GF3258 matcher has ".to_owned();
                text::push_decimal(&mut out, *actual as u64);
                out.append(" live points; vendor score rows hold at most ");
                text::push_decimal(&mut out, *maximum as u64);
                out
            },
            Gf3258CandidateMatchError::InvalidThreshold { field, value } => {
                let mut out: String = "GF3258 matcher ".to_owned();
                out.append(field);
                out.append(" must be non-negative; got ");
                text::push_signed(&mut out, *value);
                out
            },
            Gf3258CandidateMatchError::RecoveryScoreMatrixTooSmall { actual, required } => {
                let mut out: String = "GF3258 recovery score matrix has ".to_owned();
                text::push_decimal(&mut out, *actual as u64);
                out.append(" bytes; at least ");
                text::push_decimal(&mut out, *required as u64);
                out.append(" are required");
                out
            },
        }
    }
}

/// A nomination is that of its own source, which is one of the first `n`.
pub open spec fn is_own_nomination(
    x: Nomination,
    partners: Seq<TopTwo>,
    best_multiplier: i32,
    second_multiplier: i32,
    n: nat,
) -> bool {
    &&& 0 <= x.source < n
    &&& nomination_of(
        partners[x.source as int],
        x.source as int,
        best_multiplier,
        second_multiplier,
    ) == Some(x)
}

/// Every record of a list is the nomination of its own source.
pub open spec fn own_nominations(
    kept: Seq<Nomination>,
    partners: Seq<TopTwo>,
    best_multiplier: i32,
    second_multiplier: i32,
    n: nat,
) -> bool {
    forall|i: int|
        0 <= i < kept.len() ==> is_own_nomination(
            #[trigger] kept[i],
            partners,
            best_multiplier,
            second_multiplier,
            n,
        )
}

/// `holds` is true of every record.
spec fn hold_all(kept: Seq<Nomination>, holds: spec_fn(Nomination) -> bool) -> bool {
    forall|k: int| 0 <= k < kept.len() ==> holds(#[trigger] kept[k])
}

/// What holds of all records and of the new one, holds of all records after a
/// collision scan.
proof fn lemma_scan_keeps(
    kept: Seq<Nomination>,
    new: Nomination,
    positions: Seq<Gf3258RecoveryEnrolledPoint>,
    i: nat,
    placed: bool,
    holds: spec_fn(Nomination) -> bool,
)
    requires
        hold_all(kept, holds),
        holds(new),
    ensures
        hold_all(collision_scan(kept, new, positions, i, placed).0, holds),
    decreases (if i < kept.len() { kept.len() - i } else { 0 }),
{
    if i < kept.len() {
        let next = if !targets_collide(positions, new, kept[i as int]) {
            kept
        } else if new.best < kept[i as int].best {
            if placed {
                let shorter = kept.drop_last();
                if i < shorter.len() {
                    shorter.update(i as int, kept.last())
                } else {
                    shorter
                }
            } else {
                kept.update(i as int, new)
            }
        } else {
            kept
        };
        let now_placed = placed || targets_collide(positions, new, kept[i as int]) && new.best
            < kept[i as int].best;
        assert forall|j: int| 0 <= j < next.len() implies holds(#[trigger] next[j]) by {
            assert(holds(kept[j]));
            assert(holds(kept[kept.len() - 1]));
        }
        lemma_scan_keeps(next, new, positions, i + 1, now_placed, holds);
    }
}

/// A collision scan adds nothing but the new nomination.
proof fn lemma_scan_keeps_own(
    kept: Seq<Nomination>,
    new: Nomination,
    positions: Seq<Gf3258RecoveryEnrolledPoint>,
    i: nat,
    placed: bool,
    partners: Seq<TopTwo>,
    best_multiplier: i32,
    second_multiplier: i32,
    n: nat,
)
    requires
        own_nominations(kept, partners, best_multiplier, second_multiplier, n),
        is_own_nomination(new, partners, best_multiplier, second_multiplier, n),
    ensures
        own_nominations(
            collision_scan(kept, new, positions, i, placed).0,
            partners,
            best_multiplier,
            second_multiplier,
            n,
        ),
{
    let holds = |x: Nomination|
        is_own_nomination(x, partners, best_multiplier, second_multiplier, n);
    lemma_scan_keeps(kept, new, positions, i, placed, holds);
    let scanned = collision_scan(kept, new, positions, i, placed).0;
    assert forall|k: int| 0 <= k < scanned.len() implies is_own_nomination(
        #[trigger] scanned[k],
        partners,
        best_multiplier,
        second_multiplier,
        n,
    ) by {
        assert(holds(scanned[k]));
    }
}

/// A selection only keeps nominations as they were made: each is the nomination
/// of its own source.
pub proof fn lemma_selection_keeps_nominations(
    partners: Seq<TopTwo>,
    positions: Seq<Gf3258RecoveryEnrolledPoint>,
    best_multiplier: i32,
    second_multiplier: i32,
    n: nat,
)
    requires
        n <= partners.len(),
        n <= i32::MAX,
    ensures
        own_nominations(
            selection(partners, positions, best_multiplier, second_multiplier, n),
            partners,
            best_multiplier,
            second_multiplier,
            n,
        ),
    decreases n,
{
    if n > 0 {
        let m = (n - 1) as nat;
        lemma_selection_keeps_nominations(
            partners,
            positions,
            best_multiplier,
            second_multiplier,
            m,
        );
        let kept = selection(partners, positions, best_multiplier, second_multiplier, m);
        assert forall|i: int| 0 <= i < kept.len() implies is_own_nomination(
            #[trigger] kept[i],
            partners,
            best_multiplier,
            second_multiplier,
            n,
        ) by {
            assert(is_own_nomination(kept[i], partners, best_multiplier, second_multiplier, m));
        }
        match nomination_of(partners[n - 1], n - 1, best_multiplier, second_multiplier) {
            Some(new) => {
                lemma_scan_keeps_own(
                    kept,
                    new,
                    positions,
                    0,
                    false,
                    partners,
                    best_multiplier,
                    second_multiplier,
                    n,
                );
                let scanned = collision_scan(kept, new, positions, 0, false).0;
                lemma_worst_position(scanned, scanned.len());
            },
            None => {},
        }
    }
}

/// Every kept nomination names a partner whose score is below the score of the
/// next best one, each scaled by its multiplier.
proof fn lemma_selection_unambiguous(
    partners: Seq<TopTwo>,
    positions: Seq<Gf3258RecoveryEnrolledPoint>,
    best_multiplier: i32,
    second_multiplier: i32,
    n: nat,
)
    requires
        n <= partners.len(),
    ensures
        forall|k: int|
            0 <= k < selection(
                partners,
                positions,
                best_multiplier,
                second_multiplier,
                n,
            ).len() ==> {
                let x = #[trigger] selection(
                    partners,
                    positions,
                    best_multiplier,
                    second_multiplier,
                    n,
                )[k];
                best_multiplier.wrapping_mul(x.best) < second_multiplier.wrapping_mul(x.second)
                    && x.target >= 0
            },
    decreases n,
{
    if n > 0 {
        let m = (n - 1) as nat;
        lemma_selection_unambiguous(partners, positions, best_multiplier, second_multiplier, m);
        let kept = selection(partners, positions, best_multiplier, second_multiplier, m);
        let holds = |x: Nomination|
            best_multiplier.wrapping_mul(x.best) < second_multiplier.wrapping_mul(x.second)
                && x.target >= 0;
        match nomination_of(partners[n - 1], n - 1, best_multiplier, second_multiplier) {
            Some(new) => {
                lemma_scan_keeps(kept, new, positions, 0, false, holds);
                let scanned = collision_scan(kept, new, positions, 0, false).0;
                lemma_worst_position(scanned, scanned.len());
            },
            None => {},
        }
    }
}

/// Two positions are a pixel apart or more, and not so far that the squared
/// distance leaves 32 bits.
pub open spec fn a_pixel_apart(
    a: Gf3258RecoveryEnrolledPoint,
    b: Gf3258RecoveryEnrolledPoint,
) -> bool {
    let dx = a.x_q8 - b.x_q8;
    let dy = a.y_q8 - b.y_q8;
    0x1_0000 <= dx * dx + dy * dy <= 0x7fff_ffff
}

/// Two positions are less than a pixel apart.
pub open spec fn within_a_pixel(
    a: Gf3258RecoveryEnrolledPoint,
    b: Gf3258RecoveryEnrolledPoint,
) -> bool {
    let dx = a.x_q8 - b.x_q8;
    let dy = a.y_q8 - b.y_q8;
    dx * dx + dy * dy < 0x1_0000
}

proof fn lemma_distance(a: Gf3258RecoveryEnrolledPoint, b: Gf3258RecoveryEnrolledPoint)
    ensures
        ({
            let dx = a.x_q8 - b.x_q8;
            let dy = a.y_q8 - b.y_q8;
            dx * dx + dy * dy <= 0x7fff_ffff ==> distance_sq_spec(a, b) == dx * dx + dy * dy
        }),
{
    let dx = a.x_q8 - b.x_q8;
    let dy = a.y_q8 - b.y_q8;
    assert(0 <= dx * dx && 0 <= dy * dy) by (nonlinear_arith);
}

/// A record that the new one does not collide with stays.
proof fn lemma_scan_keeps_distant(
    kept: Seq<Nomination>,
    new: Nomination,
    positions: Seq<Gf3258RecoveryEnrolledPoint>,
    i: nat,
    placed: bool,
    x: Nomination,
)
    requires
        kept.contains(x),
        !targets_collide(positions, new, x),
    ensures
        collision_scan(kept, new, positions, i, placed).0.contains(x),
    decreases (if i < kept.len() { kept.len() - i } else { 0 }),
{
    if i < kept.len() {
        let at = choose|k: int| 0 <= k < kept.len() && kept[k] == x;
        if !targets_collide(positions, new, kept[i as int]) {
            lemma_scan_keeps_distant(kept, new, positions, i + 1, placed, x);
        } else if new.best < kept[i as int].best {
            assert(at != i);
            if placed {
                let shorter = kept.drop_last();
                if i < shorter.len() {
                    let next = shorter.update(i as int, kept.last());
                    assert(if at == kept.len() - 1 {
                        next[i as int] == x
                    } else {
                        next[at] == x
                    });
                    lemma_scan_keeps_distant(next, new, positions, i + 1, placed, x);
                } else {
                    assert(shorter[at] == x);
                    lemma_scan_keeps_distant(shorter, new, positions, i + 1, placed, x);
                }
            } else {
                let next = kept.update(i as int, new);
                assert(next[at] == x);
                lemma_scan_keeps_distant(next, new, positions, i + 1, true, x);
            }
        } else if placed {
            lemma_scan_keeps_distant(kept, new, positions, i + 1, placed, x);
        }
    }
}

/// A new record that collides with none changes nothing.
proof fn lemma_scan_without_collision(
    kept: Seq<Nomination>,
    new: Nomination,
    positions: Seq<Gf3258RecoveryEnrolledPoint>,
    i: nat,
)
    requires
        forall|k: int|
            0 <= k < kept.len() ==> !targets_collide(positions, new, #[trigger] kept[k]),
    ensures
        collision_scan(kept, new, positions, i, false) == (kept, false, false),
    decreases (if i < kept.len() { kept.len() - i } else { 0 }),
{
    if i < kept.len() {
        lemma_scan_without_collision(kept, new, positions, i + 1);
    }
}

proof fn lemma_uncontested_is_kept(
    partners: Seq<TopTwo>,
    positions: Seq<Gf3258RecoveryEnrolledPoint>,
    best_multiplier: i32,
    second_multiplier: i32,
    n: nat,
    x: Nomination,
)
    requires
        n <= partners.len(),
        n <= GF3258_MATCH_MAX_CANDIDATE_PAIRS,
        is_own_nomination(x, partners, best_multiplier, second_multiplier, n),
        forall|i: int|
            0 <= i < partners.len() ==> (#[trigger] partners[i]).best_index < positions.len(),
        forall|i: int|
            0 <= i < n && i != x.source && (#[trigger] partners[i]).best_index >= 0
                ==> a_pixel_apart(positions[x.target as int], positions[partners[i].best_index as int]),
    ensures
        selection(partners, positions, best_multiplier, second_multiplier, n).contains(x),
    decreases n,
{
    let m = (n - 1) as nat;
    let kept = selection(partners, positions, best_multiplier, second_multiplier, m);
    lemma_selection_bounded(partners, positions, best_multiplier, second_multiplier, m);
    lemma_selection_keeps_nominations(partners, positions, best_multiplier, second_multiplier, m);
    match nomination_of(partners[n - 1], n - 1, best_multiplier, second_multiplier) {
        Some(new) => {
            if x.source == n - 1 {
                assert(new == x);
                assert forall|k: int| 0 <= k < kept.len() implies !targets_collide(
                    positions,
                    new,
                    #[trigger] kept[k],
                ) by {
                    assert(is_own_nomination(
                        kept[k],
                        partners,
                        best_multiplier,
                        second_multiplier,
                        m,
                    ));
                    assert(partners[kept[k].source as int].best_index >= 0);
                    lemma_distance(positions[new.target as int], positions[kept[k].target as int]);
                }
                lemma_scan_without_collision(kept, new, positions, 0);
                assert(kept.push(new)[kept.len() as int] == x);
            } else {
                lemma_uncontested_is_kept(
                    partners,
                    positions,
                    best_multiplier,
                    second_multiplier,
                    m,
                    x,
                );
                assert(partners[n - 1].best_index >= 0);
                lemma_distance(positions[new.target as int], positions[x.target as int]);
                lemma_distance(positions[x.target as int], positions[new.target as int]);
                let p = positions[x.target as int];
                let q = positions[new.target as int];
                assert((p.x_q8 - q.x_q8) * (p.x_q8 - q.x_q8) == (q.x_q8 - p.x_q8) * (q.x_q8
                    - p.x_q8)) by (nonlinear_arith);
                assert((p.y_q8 - q.y_q8) * (p.y_q8 - q.y_q8) == (q.y_q8 - p.y_q8) * (q.y_q8
                    - p.y_q8)) by (nonlinear_arith);
                lemma_scan_keeps_distant(kept, new, positions, 0, false, x);
                lemma_collision_scan(kept, new, positions, 0, false);
                let scanned = collision_scan(kept, new, positions, 0, false).0;
                let at = choose|k: int| 0 <= k < scanned.len() && scanned[k] == x;
                assert(scanned.push(new)[at] == x);
            }
        },
        None => {
            assert(x.source != n - 1);
            lemma_uncontested_is_kept(
                partners,
                positions,
                best_multiplier,
                second_multiplier,
                m,
                x,
            );
        },
    }
}

/// What is selected from tables of best partners. Every correspondence repeats
/// the best partner and the two scores of its enrolled point and is unambiguous:
/// its best score, scaled, is below the scaled second one. With no more enrolled
/// points than there are slots, an unambiguous best partner is selected wherever
/// it lies a pixel or more away from the best partners of all other points.
pub proof fn lemma_selected_correspondences(
    live: Seq<Gf3258MatcherPoint>,
    best_scores: Seq<[i32; 2]>,
    best_live_indices: Seq<[i32; 2]>,
    best_multiplier: i32,
    second_multiplier: i32,
    selected: Seq<Gf3258SelectedCorrespondence>,
)
    requires
        best_scores.len() == best_live_indices.len(),
        best_scores.len() <= i32::MAX,
        selected == correspondences(
            selection(
                partners_of(best_scores, best_live_indices),
                live_positions(live),
                best_multiplier,
                second_multiplier,
                best_scores.len(),
            ),
        ),
    ensures
        forall|k: int|
            0 <= k < selected.len() ==> {
                let s = #[trigger] selected[k];
                &&& 0 <= s.enrolled_index < best_scores.len()
                &&& s.live_index >= 0
                &&& s.live_index == best_live_indices[s.enrolled_index as int]@[0]
                &&& s.best_score == best_scores[s.enrolled_index as int]@[0]
                &&& s.second_best_score == best_scores[s.enrolled_index as int]@[1]
                &&& best_multiplier.wrapping_mul(s.best_score) < second_multiplier.wrapping_mul(
                    s.second_best_score,
                )
            },
        forall|i: int|
            #![trigger best_scores[i]]
            0 <= i < best_scores.len() && best_scores.len() <= GF3258_MATCH_MAX_CANDIDATE_PAIRS && (
            forall|j: int|
                0 <= j < best_scores.len() ==> (#[trigger] best_live_indices[j])@[0] < live.len())
                && best_live_indices[i]@[0] >= 0 && best_multiplier.wrapping_mul(best_scores[i]@[0])
                < second_multiplier.wrapping_mul(best_scores[i]@[1]) && (forall|j: int|
                0 <= j < best_scores.len() && j != i && (#[trigger] best_live_indices[j])@[0] >= 0
                    ==> a_pixel_apart(
                    live_positions(live)[best_live_indices[i]@[0] as int],
                    live_positions(live)[best_live_indices[j]@[0] as int],
                )) ==> selected.contains(
                Gf3258SelectedCorrespondence {
                    enrolled_index: i as i32,
                    live_index: best_live_indices[i]@[0],
                    best_score: best_scores[i]@[0],
                    second_best_score: best_scores[i]@[1],
                },
            ),
{
    let partners = partners_of(best_scores, best_live_indices);
    let positions = live_positions(live);
    let n = best_scores.len();
    let kept = selection(partners, positions, best_multiplier, second_multiplier, n);
    lemma_selection_keeps_nominations(partners, positions, best_multiplier, second_multiplier, n);
    lemma_selection_unambiguous(partners, positions, best_multiplier, second_multiplier, n);
    assert forall|k: int| 0 <= k < selected.len() implies {
        let s = #[trigger] selected[k];
        &&& 0 <= s.enrolled_index < best_scores.len()
        &&& s.live_index >= 0
        &&& s.live_index == best_live_indices[s.enrolled_index as int]@[0]
        &&& s.best_score == best_scores[s.enrolled_index as int]@[0]
        &&& s.second_best_score == best_scores[s.enrolled_index as int]@[1]
        &&& best_multiplier.wrapping_mul(s.best_score) < second_multiplier.wrapping_mul(
            s.second_best_score,
        )
    } by {
        assert(is_own_nomination(kept[k], partners, best_multiplier, second_multiplier, n));
    }
    assert forall|i: int|
        #![trigger best_scores[i]]
        0 <= i < best_scores.len() && best_scores.len() <= GF3258_MATCH_MAX_CANDIDATE_PAIRS && (
        forall|j: int|
            0 <= j < best_scores.len() ==> (#[trigger] best_live_indices[j])@[0] < live.len())
            && best_live_indices[i]@[0] >= 0 && best_multiplier.wrapping_mul(best_scores[i]@[0])
            < second_multiplier.wrapping_mul(best_scores[i]@[1]) && (forall|j: int|
            0 <= j < best_scores.len() && j != i && (#[trigger] best_live_indices[j])@[0] >= 0
                ==> a_pixel_apart(
                live_positions(live)[best_live_indices[i]@[0] as int],
                live_positions(live)[best_live_indices[j]@[0] as int],
            )) implies selected.contains(
        Gf3258SelectedCorrespondence {
            enrolled_index: i as i32,
            live_index: best_live_indices[i]@[0],
            best_score: best_scores[i]@[0],
            second_best_score: best_scores[i]@[1],
        },
    ) by {
        let x = Nomination {
            source: i as i32,
            target: best_live_indices[i]@[0],
            best: best_scores[i]@[0],
            second: best_scores[i]@[1],
        };
        assert(is_own_nomination(x, partners, best_multiplier, second_multiplier, n));
        assert forall|j: int| 0 <= j < partners.len() implies (#[trigger] partners[j]).best_index
            < positions.len() by {
            assert(best_live_indices[j]@[0] < live.len());
        }
        assert forall|j: int|
            0 <= j < n && j != x.source && (#[trigger] partners[j]).best_index
                >= 0 implies a_pixel_apart(
            positions[x.target as int],
            positions[partners[j].best_index as int],
        ) by {
            assert(best_live_indices[j]@[0] >= 0);
        }
        lemma_uncontested_is_kept(
            partners,
            positions,
            best_multiplier,
            second_multiplier,
            n,
            x,
        );
        let at = choose|k: int| 0 <= k < kept.len() && kept[k] == x;
        assert(selected[at] == (Gf3258SelectedCorrespondence {
            enrolled_index: i as i32,
            live_index: best_live_indices[i]@[0],
            best_score: best_scores[i]@[0],
            second_best_score: best_scores[i]@[1],
        }));
    }
}

/// Two enrolled points whose unambiguous best partners lie within a pixel leave
/// one correspondence: that of the lower score, or of the first one if the scores
/// are equal.
pub proof fn lemma_close_partners_leave_one(
    live: Seq<Gf3258MatcherPoint>,
    best_scores: Seq<[i32; 2]>,
    best_live_indices: Seq<[i32; 2]>,
    best_multiplier: i32,
    second_multiplier: i32,
    selected: Seq<Gf3258SelectedCorrespondence>,
)
    requires
        best_scores.len() == 2,
        best_live_indices.len() == 2,
        forall|i: int|
            #![trigger best_scores[i]]
            0 <= i < 2 ==> 0 <= best_live_indices[i]@[0] < live.len()
                && best_multiplier.wrapping_mul(best_scores[i]@[0])
                < second_multiplier.wrapping_mul(best_scores[i]@[1]),
        within_a_pixel(
            live_positions(live)[best_live_indices[1]@[0] as int],
            live_positions(live)[best_live_indices[0]@[0] as int],
        ),
        selected == correspondences(
            selection(
                partners_of(best_scores, best_live_indices),
                live_positions(live),
                best_multiplier,
                second_multiplier,
                2,
            ),
        ),
    ensures
        selected.len() == 1,
        selected[0].enrolled_index == (if best_scores[1]@[0] < best_scores[0]@[0] {
            1int
        } else {
            0int
        }),
{
    reveal_with_fuel(selection, 3);
    reveal_with_fuel(collision_scan, 3);
    let positions = live_positions(live);
    lemma_distance(
        positions[best_live_indices[1]@[0] as int],
        positions[best_live_indices[0]@[0] as int],
    );
    assert(best_scores[0]@.len() == 2 && best_scores[1]@.len() == 2);
}

/// Every correspondence of a candidate generation joins a point of the one
/// feature with a point of the other.
pub proof fn lemma_correspondences_in_range(
    g: Gf3258CandidateGeneration,
    enrolled: Seq<Gf3258EnrolledCandidatePoint>,
    enrolled_split: int,
    live: Seq<Gf3258MatcherPoint>,
    live_split: int,
    config: Gf3258CandidateMatcherConfig,
)
    requires
        is_generation_of(g, enrolled, enrolled_split, live, live_split, config),
        0 <= enrolled_split <= enrolled.len() <= i32::MAX,
        0 <= live_split <= live.len() <= i32::MAX,
    ensures
        forall|i: int|
            0 <= i < g.selected@.len() ==> {
                &&& 0 <= (#[trigger] g.selected@[i]).enrolled_index < enrolled.len()
                &&& 0 <= g.selected@[i].live_index < live.len()
            },
{
    let partners = generation_partners(enrolled, enrolled_split, live, live_split, config);
    let kept = selection(
        partners,
        live_positions(live),
        config.ambiguity_best_multiplier,
        config.ambiguity_second_multiplier,
        enrolled.len(),
    );
    assert forall|i: int| 0 <= i < partners.len() implies (#[trigger] partners[i]).best_index
        < live_positions(live).len() by {
        let lo = row_start(i, enrolled_split, live_split);
        let hi = row_end(i, enrolled_split, live.len(), live_split);
        lemma_row_keeps_two_smallest(enrolled[i], live, config, lo, (hi - lo) as nat);
    }
    lemma_selection_bounded(
        partners,
        live_positions(live),
        config.ambiguity_best_multiplier,
        config.ambiguity_second_multiplier,
        enrolled.len(),
    );
    lemma_selection_keeps_nominations(
        partners,
        live_positions(live),
        config.ambiguity_best_multiplier,
        config.ambiguity_second_multiplier,
        enrolled.len(),
    );
    assert forall|i: int| 0 <= i < g.selected@.len() implies {
        &&& 0 <= (#[trigger] g.selected@[i]).enrolled_index < enrolled.len()
        &&& 0 <= g.selected@[i].live_index < live.len()
    } by {
        assert(is_own_nomination(
            kept[i],
            partners,
            config.ambiguity_best_multiplier,
            config.ambiguity_second_multiplier,
            enrolled.len(),
        ));
        assert(0 <= kept[i].target < live_positions(live).len());
    }
}

/// A candidate generation is determined by its features: the one from a stored
/// feature is the one from the full feature that was stored.
pub proof fn lemma_generation_deterministic(
    a: Gf3258CandidateGeneration,
    b: Gf3258CandidateGeneration,
    enrolled: Seq<Gf3258MatcherPoint>,
    stored: Seq<Gf3258EnrolledCandidatePoint>,
    enrolled_split: int,
    live: Seq<Gf3258MatcherPoint>,
    live_split: int,
    config: Gf3258CandidateMatcherConfig,
)
    requires
        stored == enrolled_sides(enrolled),
        is_generation_of(
            a,
            enrolled_sides(enrolled),
            enrolled_split,
            live,
            live_split,
            config,
        ),
        is_generation_of(b, stored, enrolled_split, live, live_split, config),
    ensures
        partners_of(a.best_scores@, a.best_live_indices@) == partners_of(
            b.best_scores@,
            b.best_live_indices@,
        ),
        a.pair_score_matrix@ == b.pair_score_matrix@,
        a.pair_normal_mode_matrix@ == b.pair_normal_mode_matrix@,
        a.selected@ == b.selected@,
        forall|k: int|
            0 <= k < GF3258_MATCH_MAX_CANDIDATE_PAIRS ==> {
                &&& (#[trigger] a.pair_slots@[k])@[0] == b.pair_slots@[k]@[0]
                &&& a.pair_slots@[k]@[1] == b.pair_slots@[k]@[1]
            },
{
    assert forall|k: int| 0 <= k < a.pair_score_matrix@.len() implies (
    a.pair_score_matrix@[k], a.pair_normal_mode_matrix@[k]) == (
    b.pair_score_matrix@[k], b.pair_normal_mode_matrix@[k]) by {
        assert((a.pair_score_matrix@[k], a.pair_normal_mode_matrix@[k]) == matrix_entry(
            stored,
            enrolled_split,
            live,
            live_split,
            config,
            k / GF3258_MATCH_SCORE_MATRIX_STRIDE as int,
            k % GF3258_MATCH_SCORE_MATRIX_STRIDE as int,
        ));
        assert((b.pair_score_matrix@[k], b.pair_normal_mode_matrix@[k]) == matrix_entry(
            stored,
            enrolled_split,
            live,
            live_split,
            config,
            k / GF3258_MATCH_SCORE_MATRIX_STRIDE as int,
            k % GF3258_MATCH_SCORE_MATRIX_STRIDE as int,
        ));
    }
    assert(a.pair_score_matrix@ =~= b.pair_score_matrix@);
    assert(a.pair_normal_mode_matrix@ =~= b.pair_normal_mode_matrix@);
}

/// Score of the enrolled point of row `i` and the live point of column `j`.
pub open spec fn matrix_score(matrix: Seq<u8>, i: int, j: int) -> int {
    matrix[i * 180 + j] as int
}

/// The partners of a column: the least score of the rows and its row, and the
/// least of the others, as far as they are below the sentinel.
proof fn lemma_column_two_smallest(matrix: Seq<u8>, j: int, lo: int, n: nat)
    requires
        0 <= lo,
        lo + n <= i32::MAX,
    ensures
        ({
            let t = column_partners(matrix, j, lo, n);
            &&& t.best <= t.second <= 0xc0
            &&& t.best_index < lo + n
            &&& t.best < 0xc0 ==> lo <= t.best_index && matrix_score(
                matrix,
                t.best_index as int,
                j,
            ) == t.best
            &&& t.best == 0xc0 ==> t.best_index == -1
            &&& forall|i: int|
                lo <= i < lo + n ==> #[trigger] matrix_score(matrix, i, j) >= t.best && (i
                    != t.best_index ==> matrix_score(matrix, i, j) >= t.second)
        }),
    decreases n,
{
    if n > 0 {
        lemma_column_two_smallest(matrix, j, lo, (n - 1) as nat);
        assert(matrix_score(matrix, lo + n - 1, j) == matrix[(lo + n - 1) * 180 + j]);
    }
}

/// What recovery pairs are. Every pair joins points of the same polarity; the
/// enrolled point has the least score of all enrolled points of that polarity in
/// the live point's column, below the sentinel; and with multipliers whose products
/// fit, it is clearly the best: its score, scaled, is below the scaled score of
/// every other one.
pub proof fn lemma_recovery_pairs_are_clearly_best(
    matrix: Seq<u8>,
    enrolled: Seq<Gf3258RecoveryEnrolledPoint>,
    enrolled_split: int,
    live_count: nat,
    live_split: int,
    config: Gf3258CandidateMatcherConfig,
    slots: Seq<[i32; 2]>,
    k: int,
)
    requires
        0 <= enrolled_split <= enrolled.len() <= i32::MAX,
        0 <= live_split <= live_count <= 180,
        slots_hold(
            slots,
            swapped_pairs(
                selection(
                    recovery_partners(
                        matrix,
                        enrolled.len(),
                        enrolled_split,
                        live_count,
                        live_split,
                    ),
                    enrolled,
                    config.ambiguity_best_multiplier,
                    config.ambiguity_second_multiplier,
                    live_count,
                ),
            ),
        ),
        0 <= k < 31,
        !(slots[k]@[0] == -1 && slots[k]@[1] == -1),
    ensures
        ({
            let e = slots[k]@[0] as int;
            let l = slots[k]@[1] as int;
            let lo = if l < live_split {
                0
            } else {
                enrolled_split
            };
            let hi = if l < live_split {
                enrolled_split
            } else {
                enrolled.len() as int
            };
            let best = config.ambiguity_best_multiplier;
            let second = config.ambiguity_second_multiplier;
            &&& 0 <= l < live_count
            &&& lo <= e < hi
            &&& matrix_score(matrix, e, l) < 0xc0
            &&& forall|i: int|
                lo <= i < hi ==> #[trigger] matrix_score(matrix, i, l) >= matrix_score(
                    matrix,
                    e,
                    l,
                )
            &&& 0 <= best <= 1_000_000 && 0 <= second <= 1_000_000 ==> forall|i: int|
                lo <= i < hi && i != e ==> best * matrix_score(matrix, e, l) < second
                    * #[trigger] matrix_score(matrix, i, l)
        }),
{
    let partners = recovery_partners(
        matrix,
        enrolled.len(),
        enrolled_split,
        live_count,
        live_split,
    );
    let bm = config.ambiguity_best_multiplier;
    let sm = config.ambiguity_second_multiplier;
    let kept = selection(partners, enrolled, bm, sm, live_count);
    lemma_selection_keeps_nominations(partners, enrolled, bm, sm, live_count);
    lemma_selection_unambiguous(partners, enrolled, bm, sm, live_count);
    let pairs = swapped_pairs(kept);
    assert(k < pairs.len());
    let x = kept[k];
    assert(is_own_nomination(x, partners, bm, sm, live_count));
    assert(pairs[k] == (x.target, x.source));
    assert(slots[k]@[0] == x.target && slots[k]@[1] == x.source);
    let l = x.source as int;
    let lo = if l < live_split {
        0
    } else {
        enrolled_split
    };
    let hi = if l < live_split {
        enrolled_split
    } else {
        enrolled.len() as int
    };
    lemma_column_two_smallest(matrix, l, lo, (hi - lo) as nat);
    let t = partners[l];
    assert(t == column_partners(matrix, l, lo, (hi - lo) as nat));
    if 0 <= bm <= 1_000_000 && 0 <= sm <= 1_000_000 {
        assert forall|i: int| lo <= i < hi && i != x.target implies bm * matrix_score(
            matrix,
            x.target as int,
            l,
        ) < sm * #[trigger] matrix_score(matrix, i, l) by {
            lemma_scaled_below(bm, sm, t.best, t.second, matrix_score(matrix, i, l));
        }
    }
}

proof fn lemma_scaled_below(bm: i32, sm: i32, best: i32, second: i32, other: int)
    requires
        0 <= bm <= 1_000_000,
        0 <= sm <= 1_000_000,
        0 <= best <= 0xc0,
        0 <= second <= 0xc0,
        second <= other,
        bm.wrapping_mul(best) < sm.wrapping_mul(second),
    ensures
        bm * best < sm * other,
{
    assert(0 <= bm * best <= 0xc0 * 1_000_000 && 0 <= sm * second <= 0xc0 * 1_000_000 && sm
        * second <= sm * other) by (nonlinear_arith)
        requires
            0 <= bm <= 1_000_000,
            0 <= sm <= 1_000_000,
            0 <= best <= 0xc0,
            0 <= second <= 0xc0,
            second <= other,
    ;
}

/// What selected correspondences are. Every one joins points of the same polarity
/// that have a score, the live point has the least score of all, the first of
/// equal ones; and with multipliers whose products fit, it is clearly the best:
/// its score, scaled, is below the scaled score of every other live point that has
/// one.
pub proof fn lemma_selected_are_clearly_best(
    g: Gf3258CandidateGeneration,
    enrolled: Seq<Gf3258EnrolledCandidatePoint>,
    enrolled_split: int,
    live: Seq<Gf3258MatcherPoint>,
    live_split: int,
    config: Gf3258CandidateMatcherConfig,
    k: int,
)
    requires
        is_generation_of(g, enrolled, enrolled_split, live, live_split, config),
        0 <= enrolled_split <= enrolled.len() <= i32::MAX,
        0 <= live_split <= live.len() <= 180,
        0 <= k < g.selected@.len(),
    ensures
        ({
            let i = g.selected@[k].enrolled_index as int;
            let l = g.selected@[k].live_index as int;
            let lo = if i < enrolled_split {
                0
            } else {
                live_split
            };
            let hi = if i < enrolled_split {
                live_split
            } else {
                live.len() as int
            };
            let best = config.ambiguity_best_multiplier;
            let second = config.ambiguity_second_multiplier;
            let score = live_score(enrolled[i], live, config, l);
            &&& 0 <= i < enrolled.len()
            &&& lo <= l < hi
            &&& score == Some(g.selected@[k].best_score)
            &&& forall|j: int|
                lo <= j < hi && #[trigger] live_score(enrolled[i], live, config, j) is Some
                    ==> live_score(enrolled[i], live, config, j)->Some_0 >= score->Some_0 && (j < l
                    ==> live_score(enrolled[i], live, config, j)->Some_0 > score->Some_0)
            &&& 0 <= best <= 1_000_000 && 0 <= second <= 1_000_000 ==> forall|j: int|
                lo <= j < hi && j != l && #[trigger] live_score(
                    enrolled[i],
                    live,
                    config,
                    j,
                ) is Some ==> best * score->Some_0 < second * live_score(
                    enrolled[i],
                    live,
                    config,
                    j,
                )->Some_0
        }),
{
    let partners = generation_partners(enrolled, enrolled_split, live, live_split, config);
    let bm = config.ambiguity_best_multiplier;
    let sm = config.ambiguity_second_multiplier;
    let positions = live_positions(live);
    let kept = selection(partners, positions, bm, sm, enrolled.len());
    lemma_selection_keeps_nominations(partners, positions, bm, sm, enrolled.len());
    lemma_selection_unambiguous(partners, positions, bm, sm, enrolled.len());
    let x = kept[k];
    assert(is_own_nomination(x, partners, bm, sm, enrolled.len()));
    let i = x.source as int;
    let l = x.target as int;
    let lo = row_start(i, enrolled_split, live_split);
    let hi = row_end(i, enrolled_split, live.len(), live_split);
    lemma_row_keeps_two_smallest(enrolled[i], live, config, lo, (hi - lo) as nat);
    let t = partners[i];
    assert(t == row_partners(enrolled[i], live, config, lo, (hi - lo) as nat));
    assert(holds_two_smallest(t, enrolled[i], live, config, lo, hi));
    lemma_pair_score_bound(enrolled[i], live[l], config);
    assert(t.best >= 0) by {
        assert(live_score(enrolled[i], live, config, l) == Some(t.best));
    }
    if 0 <= bm <= 1_000_000 && 0 <= sm <= 1_000_000 {
        assert forall|j: int|
            lo <= j < hi && j != l && #[trigger] live_score(
                enrolled[i],
                live,
                config,
                j,
            ) is Some implies bm * t.best < sm * live_score(enrolled[i], live, config, j)->Some_0 by {
            lemma_scaled_below(
                bm,
                sm,
                t.best,
                t.second,
                live_score(enrolled[i], live, config, j)->Some_0 as int,
            );
        }
    }
}

proof fn lemma_popcount_complement(n: nat, k: nat)
    requires
        n < vstd::arithmetic::power2::pow2(k),
    ensures
        popcount((vstd::arithmetic::power2::pow2(k) - 1 - n) as nat) == k - popcount(n),
    decreases k,
{
    vstd::arithmetic::power2::lemma2_to64();
    if k > 0 {
        vstd::arithmetic::power2::lemma_pow2_unfold(k);
        let p = vstd::arithmetic::power2::pow2((k - 1) as nat);
        lemma_popcount_complement(n / 2, (k - 1) as nat);
        let c = (2 * p - 1 - n) as nat;
        assert(c / 2 == p - 1 - n / 2 && c % 2 == 1 - n % 2);
        assert(popcount(c) == c % 2 + popcount(c / 2));
        assert(popcount(n) == n % 2 + popcount(n / 2));
    }
}

/// Bit distances: a text of bytes has none to itself, the same to another as the
/// other to it, and to the complement of another all the bits that agree.
pub proof fn lemma_hamming_bytes(a: Seq<u8>, b: Seq<u8>, c: Seq<u8>, n: nat)
    requires
        n <= b.len(),
        n <= c.len(),
        forall|i: int| 0 <= i < n ==> #[trigger] c[i] == 255 - b[i],
    ensures
        hamming_bytes(a, a, n) == 0,
        hamming_bytes(a, b, n) == hamming_bytes(b, a, n),
        hamming_bytes(a, c, n) == 8 * n - hamming_bytes(a, b, n),
    decreases n,
{
    if n > 0 {
        lemma_hamming_bytes(a, b, c, (n - 1) as nat);
        let x = a[n - 1];
        let y = b[n - 1];
        let z = c[n - 1];
        assert(z == 255 - y);
        assert(x ^ x == 0u8 && x ^ y == y ^ x && x ^ z == 255 - (x ^ y)) by (bit_vector)
            requires
                z == 255 - y,
        ;
        vstd::arithmetic::power2::lemma2_to64();
        lemma_popcount_complement((x ^ y) as nat, 8);
        assert(popcount(0) == 0);
    }
}

/// A live point with the second half of its descriptor complemented and the hashes
/// of its two modes exchanged.
pub open spec fn is_turned(turned: Gf3258MatcherPoint, live: Gf3258MatcherPoint) -> bool {
    &&& forall|i: int|
        0 <= i < 8 ==> #[trigger] turned.descriptor_10_1f@[i] == live.descriptor_10_1f@[i]
    &&& forall|i: int|
        8 <= i < 16 ==> #[trigger] turned.descriptor_10_1f@[i] == 255 - live.descriptor_10_1f@[i]
    &&& turned.hash20 == live.hash24
    &&& turned.hash24 == live.hash20
    &&& turned.hash28 == live.hash30
    &&& turned.hash30 == live.hash28
}

/// What a score measures. A point and its like have the score zero in the normal
/// mode, a point and its turned like have it in the alternate mode. Turning a live
/// point exchanges the two totals and keeps the selected one, which is the lesser;
/// and a score exists exactly if the first halves are near enough and one of the
/// two descriptor distances is.
pub proof fn lemma_pair_score(
    enrolled: Gf3258EnrolledCandidatePoint,
    live: Gf3258MatcherPoint,
    turned: Gf3258MatcherPoint,
    config: Gf3258CandidateMatcherConfig,
)
    requires
        is_turned(turned, live),
        config.first_half_hamming_max >= 0,
        config.descriptor_mode_hamming_max >= 0,
    ensures
        ({
            let score = pair_score_spec(enrolled, live, config);
            let other = pair_score_spec(enrolled, turned, config);
            &&& score is Some == other is Some
            &&& score is Some ==> {
                &&& score->Some_0.selected_total == other->Some_0.selected_total
                &&& score->Some_0.normal_total == other->Some_0.alternate_total
                &&& score->Some_0.alternate_total == other->Some_0.normal_total
                &&& score->Some_0.selected_total <= score->Some_0.normal_total
                &&& score->Some_0.selected_total <= score->Some_0.alternate_total
                &&& score->Some_0.selected_mode == (if score->Some_0.normal_total
                    < score->Some_0.alternate_total {
                    Gf3258MatchDescriptorMode::Normal
                } else {
                    Gf3258MatchDescriptorMode::Alternate
                })
                &&& score->Some_0.first_half_hamming <= config.first_half_hamming_max
                &&& score->Some_0.normal_descriptor_hamming + score->Some_0.alternate_descriptor_hamming
                    == 64 + 2 * score->Some_0.first_half_hamming
            }
            &&& enrolled.descriptor_10_1f@ == live.descriptor_10_1f@ && enrolled.hash20
                == live.hash20 && enrolled.hash28 == live.hash28 ==> {
                &&& score is Some
                &&& score->Some_0.selected_total == 0
                &&& score->Some_0.selected_mode == Gf3258MatchDescriptorMode::Normal
                &&& other->Some_0.selected_total == 0
                &&& other->Some_0.selected_mode == Gf3258MatchDescriptorMode::Alternate
            }
        }),
{
    let e = enrolled.descriptor_10_1f@;
    let l = live.descriptor_10_1f@;
    let t = turned.descriptor_10_1f@;
    assert(l.subrange(0, 8) =~= t.subrange(0, 8));
    assert forall|i: int| 0 <= i < 8 implies #[trigger] t.subrange(8, 16)[i] == 255 - l.subrange(
        8,
        16,
    )[i] by {
        assert(t[i + 8] == 255 - l[i + 8]);
    }
    lemma_hamming_bytes(e.subrange(8, 16), l.subrange(8, 16), t.subrange(8, 16), 8);
    let none = Seq::new(8, |i: int| (255 - l.subrange(0, 8)[i]) as u8);
    lemma_hamming_bytes(e.subrange(0, 8), l.subrange(0, 8), none, 8);
    lemma_hamming_bytes_bound(e.subrange(0, 8), l.subrange(0, 8), 8);
    lemma_hamming_bytes_bound(e.subrange(8, 16), l.subrange(8, 16), 8);
    lemma_pair_score_bound(enrolled, live, config);
    lemma_pair_score_bound(enrolled, turned, config);
    vstd::arithmetic::power2::lemma2_to64();
    lemma_popcount_bound((enrolled.hash20 ^ live.hash20) as nat, 32);
    lemma_popcount_bound((enrolled.hash28 ^ live.hash28) as nat, 32);
    lemma_popcount_bound((enrolled.hash20 ^ live.hash24) as nat, 32);
    lemma_popcount_bound((enrolled.hash28 ^ live.hash30) as nat, 32);
    let w = enrolled.hash20;
    let v = enrolled.hash28;
    assert(w ^ w == 0u32 && v ^ v == 0u32) by (bit_vector);
    assert(popcount(0) == 0);
}

} // verus!
