//! From an extracted feature to an enrolled sample: descriptor projection,
//! point order, validity packing, and the step that adds a feature to a template.
use vstd::prelude::*;

use crate::bytes;
use crate::enrollment_add;
use crate::enrollment_add::{
    Gf3258EnrollmentAddError, Gf3258EnrollmentAddResult, Gf3258EnrollmentFeaturePoint,
    Gf3258EnrollmentTemplateCore, Gf3258PersistentSampleState, Gf3258PersistentSourceScalars,
    Gf3258RegistrationEngine,
};
use crate::enrollment_graph::Gf3258EnrollmentSample;
use crate::feature::descriptor::Gf3258CompactDescriptor;
use crate::feature::extraction;
use crate::feature::extraction::{
    gf3258_prepare_c0910_inputs_from_c2d40_source, Gf3258ExtractedPrimaryPoint,
    Gf3258PreparedC0910Inputs, Gf3258PrimaryFeatureExtraction,
};
use crate::feature::matching;
use crate::feature::matching::{
    gf3258_bf420_descriptor, gf3258_matcher_polarity_from_raw_response,
};
use crate::feature::orientation;
use crate::feature::quality;
use crate::feature::quality::{gf3258_capture_quality, Gf3258CaptureQuality};
use crate::feature::validity::Gf3258EnrollmentValidity;
use crate::feature::{FeatureError, GF3258_PIXELS};
use crate::registration;
use crate::registration::{
    gf3258_expand_quarter_validity, gf3258_pack_active_validity, gf3258_pack_quarter_validity,
    Gf3258AffineQ8, Gf3258MapOps, Gf3258PointRegistration, Gf3258RegistrationMapScores,
    Gf3258RegistrationPoint, GF3258_REGISTRATION_PIXELS,
};
use crate::text;

verus! {

/// Most points of a stored sample.
pub const GF3258_TEMPLATE_POINT_CAPACITY: usize = 120;

/// Score that a relation must exceed to bring a sample into the component.
pub const GF3258_ENROLLMENT_GRAPH_SCORE_THRESHOLD: i32 = 0xcd;

pub const GF3258_ENROLLMENT_STORAGE_CAPACITY: usize = 50;

pub const GF3258_ENROLLMENT_CONFIGURED_MAX_SAMPLES: usize = 40;

/// What enrollment takes from a completed feature.
#[derive(Debug, Clone, PartialEq, Eq)]
pub struct Gf3258EnrollmentReadyFeature {
    /// Points in the order of registration.
    pub points: Vec<Gf3258EnrollmentFeaturePoint>,
    /// Points in the order of storage, partitioned by polarity.
    pub persistent_points: Vec<Gf3258EnrollmentFeaturePoint>,
    pub primary_registration_map: [u8; 160],
    pub secondary_registration_map: Option<[u8; 160]>,
    pub low_threshold_registration_map: [u8; 160],
    pub quarter_validity_packed: [u8; 40],
    pub packed_validity: [u8; 160],
    pub source_scalars: Gf3258PersistentSourceScalars,
    pub status: i32,
    /// Whether everything that is stored of a sample is known.
    pub persistence_complete: bool,
}

#[derive(Debug, Clone, PartialEq, Eq)]
pub enum Gf3258FeatureEnrollmentError {
    TooManyPoints { actual: usize, capacity: usize },
    UnexpectedAlgorithmImageLength { expected: usize, actual: usize },
    UnexpectedActiveValidityLength { expected: usize, actual: usize },
    NonBinaryActiveValidity { index: usize, value: u8 },
    NonBinaryQuarterValidity { index: usize, value: u8 },
    CaptureQualityRejected { raw_quality: i32, final_quality: i32, coverage: i32 },
    Feature(FeatureError),
    PersistenceStateIncomplete,
    EnrollmentAdd(Gf3258EnrollmentAddError),
}

impl From<Gf3258EnrollmentAddError> for Gf3258FeatureEnrollmentError {
    fn from(value: Gf3258EnrollmentAddError) -> Self {
        Gf3258FeatureEnrollmentError::EnrollmentAdd(value)
    }
}

impl vstd::std_specs::convert::FromSpecImpl<Gf3258EnrollmentAddError> for Gf3258FeatureEnrollmentError {
    open spec fn obeys_from_spec() -> bool {
        true
    }

    open spec fn from_spec(value: Gf3258EnrollmentAddError) -> Self {
        Gf3258FeatureEnrollmentError::EnrollmentAdd(value)
    }
}

impl From<FeatureError> for Gf3258FeatureEnrollmentError {
    fn from(value: FeatureError) -> Self {
        Gf3258FeatureEnrollmentError::Feature(value)
    }
}

impl vstd::std_specs::convert::FromSpecImpl<FeatureError> for Gf3258FeatureEnrollmentError {
    open spec fn obeys_from_spec() -> bool {
        true
    }

    open spec fn from_spec(value: FeatureError) -> Self {
        Gf3258FeatureEnrollmentError::Feature(value)
    }
}

/// `projected` is the enrollment projection of a compact descriptor: the sign
/// words permuted, everything else as it was.
pub open spec fn is_mode0_projection(
    projected: Gf3258CompactDescriptor,
    compact: Gf3258CompactDescriptor,
) -> bool {
    &&& projected.norm_128 == compact.norm_128
    &&& projected.clip_128 == compact.clip_128
    &&& projected.normalized_128 == compact.normalized_128
    &&& projected.median_hash_128 == compact.median_hash_128
    &&& projected.norm_32 == compact.norm_32
    &&& projected.clip_32 == compact.clip_32
    &&& projected.normalized_32 == compact.normalized_32
    &&& projected.hadamard_hash_32 == compact.hadamard_hash_32
    &&& projected.median_hash_32 == compact.median_hash_32
    &&& projected.point_bytes().take(16) == matching::bf420_spec(compact.point_bytes().take(16))
}

pub fn gf3258_enrollment_mode0_compact_descriptor(compact: &Gf3258CompactDescriptor) -> (projected:
    Gf3258CompactDescriptor)
    ensures
        is_mode0_projection(projected, *compact),
{
    let stored: [u8; 32] = compact.feature_point_bytes_10_2f();
    let mut descriptor: [u8; 16] = [0u8;16];
    for i in 0..16usize
        invariant
            forall|j: int| 0 <= j < i ==> descriptor@[j] == stored@[j],
    {
        descriptor[i] = stored[i];
    }
    assert(descriptor@ =~= compact.point_bytes().take(16));
    let permuted: [u8; 16] = gf3258_bf420_descriptor(descriptor);
    let slice: &[u8] = permuted.as_slice();
    let words: [u32; 4] = [
        bytes::read_le32(slice, 0),
        bytes::read_le32(slice, 4),
        bytes::read_le32(slice, 8),
        bytes::read_le32(slice, 12),
    ];
    let projected: Gf3258CompactDescriptor = Gf3258CompactDescriptor {
        norm_128: compact.norm_128,
        clip_128: compact.clip_128,
        normalized_128: compact.normalized_128,
        hadamard_128_words: words,
        median_hash_128: compact.median_hash_128,
        norm_32: compact.norm_32,
        clip_32: compact.clip_32,
        normalized_32: compact.normalized_32,
        hadamard_hash_32: compact.hadamard_hash_32,
        median_hash_32: compact.median_hash_32,
    };
    proof {
        bytes::lemma_le32_of_read(permuted@, 0);
        bytes::lemma_le32_of_read(permuted@, 4);
        bytes::lemma_le32_of_read(permuted@, 8);
        bytes::lemma_le32_of_read(permuted@, 12);
        assert(projected.hadamard_128_words@[0] == words@[0]);
        assert forall|i: int| 0 <= i < 16 implies projected.point_bytes()[i] == permuted@[i] by {
            assert(projected.point_bytes()[i] == bytes::le32(words@[i / 4])[i % 4]);
        }
        assert(projected.point_bytes().take(16) =~= permuted@);
    }
    projected
}

/// `p` is the enrollment point of an extracted point.
pub open spec fn is_mode0_point(
    p: Gf3258EnrollmentFeaturePoint,
    point: Gf3258ExtractedPrimaryPoint,
) -> bool {
    &&& p.core == point.core
    &&& is_mode0_projection(p.compact, point.descriptor.compact)
}

pub fn gf3258_enrollment_mode0_point(point: &Gf3258ExtractedPrimaryPoint) -> (p:
    Gf3258EnrollmentFeaturePoint)
    ensures
        is_mode0_point(p, *point),
{
    Gf3258EnrollmentFeaturePoint {
        core: point.core,
        compact: gf3258_enrollment_mode0_compact_descriptor(&point.descriptor.compact),
    }
}

/// The error of a point count, if it is one.
pub open spec fn point_count_error(count: nat) -> Option<Gf3258FeatureEnrollmentError> {
    if count > GF3258_TEMPLATE_POINT_CAPACITY {
        Some(
            Gf3258FeatureEnrollmentError::TooManyPoints {
                actual: count as usize,
                capacity: GF3258_TEMPLATE_POINT_CAPACITY,
            },
        )
    } else {
        None
    }
}

pub fn validate_point_count(count: usize) -> (result: Result<(), Gf3258FeatureEnrollmentError>)
    ensures
        result == (match point_count_error(count as nat) {
            Some(error) => Err::<(), Gf3258FeatureEnrollmentError>(error),
            None => Ok(()),
        }),
{
    if count > GF3258_TEMPLATE_POINT_CAPACITY {
        return Err(
            Gf3258FeatureEnrollmentError::TooManyPoints {
                actual: count,
                capacity: GF3258_TEMPLATE_POINT_CAPACITY,
            },
        );
    }
    Ok(())
}

/// The first cell among the first `n` that is neither zero nor one, as an error.
pub open spec fn binary_error(cells: Seq<u8>, quarter: bool, n: nat) -> Option<
    Gf3258FeatureEnrollmentError,
>
    decreases n,
{
    if n == 0 {
        None
    } else {
        match binary_error(cells, quarter, (n - 1) as nat) {
            Some(error) => Some(error),
            None => if cells[n - 1] > 1 {
                if quarter {
                    Some(
                        Gf3258FeatureEnrollmentError::NonBinaryQuarterValidity {
                            index: (n - 1) as usize,
                            value: cells[n - 1],
                        },
                    )
                } else {
                    Some(
                        Gf3258FeatureEnrollmentError::NonBinaryActiveValidity {
                            index: (n - 1) as usize,
                            value: cells[n - 1],
                        },
                    )
                }
            } else {
                None
            },
        }
    }
}

proof fn lemma_binary_error(cells: Seq<u8>, quarter: bool, k: nat, n: nat)
    requires
        k <= n,
        binary_error(cells, quarter, k) is Some,
    ensures
        binary_error(cells, quarter, n) == binary_error(cells, quarter, k),
    decreases n,
{
    if k < n {
        lemma_binary_error(cells, quarter, k, (n - 1) as nat);
    }
}

pub fn validate_binary_map(values: &[u8], quarter: bool) -> (result: Result<
    (),
    Gf3258FeatureEnrollmentError,
>)
    ensures
        result == (match binary_error(values@, quarter, values@.len()) {
            Some(error) => Err::<(), Gf3258FeatureEnrollmentError>(error),
            None => Ok(()),
        }),
        result is Ok <==> registration::is_binary(values@),
{
    for i in 0..values.len()
        invariant
            binary_error(values@, quarter, i as nat) is None,
            forall|j: int| 0 <= j < i ==> (#[trigger] values@[j]) <= 1,
    {
        let value: u8 = values[i];
        if value > 1 {
            proof {
                lemma_binary_error(values@, quarter, (i + 1) as nat, values@.len());
                assert(values@[i as int] > 1);
            }
            return Err(
                if quarter {
                    Gf3258FeatureEnrollmentError::NonBinaryQuarterValidity { index: i, value }
                } else {
                    Gf3258FeatureEnrollmentError::NonBinaryActiveValidity { index: i, value }
                },
            );
        }
    }
    Ok(())
}

/// At most one class is other than zero and one, modulo four.
pub open spec fn partitionable(classes: Seq<u16>) -> bool {
    forall|i: int, j: int|
        0 <= i < j < classes.len() ==> (#[trigger] classes[i]) % 4 <= 1 || (#[trigger] classes[j])
            % 4 <= 1
}

/// Two-pointer partition with inclusive ends: past class zero from the front,
/// past class one from the back, and a swap of what is left, after which the
/// front, or else the back, has passed.
pub open spec fn storage_partition_from(
    classes: Seq<u16>,
    order: Seq<int>,
    front: int,
    back: int,
) -> (Seq<int>, int)
    decreases back - front,
{
    if front >= back {
        (
            order,
            if front == back && classes[order[front]] % 4 == 0 {
                front + 1
            } else {
                front
            },
        )
    } else if classes[order[front]] % 4 == 0 {
        storage_partition_from(classes, order, front + 1, back)
    } else if classes[order[back]] % 4 == 1 {
        storage_partition_from(classes, order, front, back - 1)
    } else {
        let swapped = order.update(front, order[back]).update(back, order[front]);
        if classes[order[back]] % 4 == 0 {
            storage_partition_from(classes, swapped, front + 1, back)
        } else {
            storage_partition_from(classes, swapped, front, back - 1)
        }
    }
}

/// The storage order of points of the given polarities, and its split.
pub open spec fn storage_partition(classes: Seq<u16>) -> (Seq<int>, int) {
    if classes.len() == 0 {
        (Seq::empty(), 0)
    } else {
        storage_partition_from(
            classes,
            Seq::new(classes.len(), |i: int| i),
            0,
            classes.len() - 1,
        )
    }
}

/// The storage partition only reorders, and its split is a position.
pub proof fn lemma_storage_partition_permutes(
    classes: Seq<u16>,
    order: Seq<int>,
    front: int,
    back: int,
)
    requires
        matching::is_permutation(order, classes.len()),
        0 <= front <= back < classes.len(),
    ensures
        matching::is_permutation(
            storage_partition_from(classes, order, front, back).0,
            classes.len(),
        ),
        front <= storage_partition_from(classes, order, front, back).1 <= classes.len(),
    decreases back - front,
{
    if front < back {
        let swapped = order.update(front, order[back]).update(back, order[front]);
        if classes[order[front]] % 4 == 0 {
            lemma_storage_partition_permutes(classes, order, front + 1, back);
        } else if classes[order[back]] % 4 == 1 {
            lemma_storage_partition_permutes(classes, order, front, back - 1);
        } else if classes[order[back]] % 4 == 0 {
            lemma_storage_partition_permutes(classes, swapped, front + 1, back);
        } else {
            lemma_storage_partition_permutes(classes, swapped, front, back - 1);
        }
    }
}

/// With polarities zero and one, everything stored before the split has polarity
/// zero and everything from it on has polarity one.
pub proof fn lemma_storage_partition_separates(
    classes: Seq<u16>,
    order: Seq<int>,
    front: int,
    back: int,
)
    requires
        matching::is_permutation(order, classes.len()),
        0 <= front <= back < classes.len(),
        forall|i: int| 0 <= i < classes.len() ==> (#[trigger] classes[i]) <= 1,
        matching::separated(classes, order, front, back + 1),
    ensures
        matching::separated(
            classes,
            storage_partition_from(classes, order, front, back).0,
            storage_partition_from(classes, order, front, back).1,
            storage_partition_from(classes, order, front, back).1,
        ),
    decreases back - front,
{
    assert(classes[order[front]] <= 1);
    assert(classes[order[back]] <= 1);
    if front < back {
        let swapped = order.update(front, order[back]).update(back, order[front]);
        if classes[order[front]] % 4 == 0 {
            lemma_storage_partition_separates(classes, order, front + 1, back);
        } else if classes[order[back]] % 4 == 1 {
            lemma_storage_partition_separates(classes, order, front, back - 1);
        } else {
            lemma_storage_partition_separates(classes, swapped, front + 1, back);
        }
    }
}

/// The storage order of points of the given polarities, and its split.
fn storage_order(classes: &Vec<u16>) -> (r: (Vec<usize>, usize))
    requires
        partitionable(classes@),
    ensures
        r.0@.len() == classes@.len(),
        forall|i: int|
            0 <= i < classes@.len() ==> #[trigger] r.0@[i] == storage_partition(classes@).0[i],
        matching::is_permutation(storage_partition(classes@).0, classes@.len()),
        r.1 == storage_partition(classes@).1,
        r.1 <= classes@.len(),
{
    let n: usize = classes.len();
    let mut order: Vec<usize> = Vec::with_capacity(n);
    for i in 0..n
        invariant
            order@.len() == i,
            forall|j: int| 0 <= j < i ==> #[trigger] order@[j] == j,
    {
        order.push(i);
    }
    if n == 0 {
        return (order, 0);
    }
    let ghost identity = Seq::new(classes@.len(), |i: int| i);
    let ghost mut model = identity;
    let mut front: usize = 0;
    let mut back: usize = n - 1;
    proof {
        lemma_storage_partition_permutes(classes@, identity, 0, n - 1);
    }
    while front < back
        invariant
            n == classes@.len(),
            n > 0,
            order@.len() == n,
            partitionable(classes@),
            matching::is_permutation(model, classes@.len()),
            forall|j: int| 0 <= j < n ==> #[trigger] order@[j] == model[j],
            front <= back < n,
            storage_partition_from(classes@, model, front as int, back as int)
                == storage_partition(classes@),
        decreases back - front,
    {
        let head: usize = order[front];
        let tail: usize = order[back];
        proof {
            assert(order@[front as int] == model[front as int]);
            assert(order@[back as int] == model[back as int]);
        }
        if classes[head] % 4 == 0 {
            front = front + 1;
        } else if classes[tail] % 4 == 1 {
            back = back - 1;
        } else {
            order.set(front, tail);
            order.set(back, head);
            proof {
                model = model.update(front as int, model[back as int]).update(
                    back as int,
                    model[front as int],
                );
            }
            if classes[tail] % 4 == 0 {
                front = front + 1;
            } else {
                back = back - 1;
            }
        }
    }
    proof {
        assert(order@[front as int] == model[front as int]);
    }
    if classes[order[front]] % 4 == 0 {
        front = front + 1;
    }
    (order, front)
}

/// What `polarity` returns.
pub open spec fn polarity_of_item<T, F: Fn(&T) -> u16>(polarity: F, item: T) -> u16 {
    choose|class: u16| call_ensures(polarity, (&item,), class)
}

/// Polarities of items.
pub open spec fn item_classes<T, F: Fn(&T) -> u16>(polarity: F, items: Seq<T>) -> Seq<u16> {
    Seq::new(items.len(), |i: int| polarity_of_item(polarity, items[i]))
}

/// Exchanges two items.
fn swap_items<T>(items: &mut [T], a: usize, b: usize)
    requires
        a < b < old(items)@.len(),
    ensures
        final(items)@ == old(items)@.update(a as int, old(items)@[b as int]).update(
            b as int,
            old(items)@[a as int],
        ),
{
    let (head, tail): (&mut [T], &mut [T]) = items.split_at_mut(b);
    core::mem::swap(&mut head[a], &mut tail[0]);
}

/// Brings items into storage order and returns the split.
pub fn gf3258_b3970_partition_by<T, F: Fn(&T) -> u16>(points: &mut [T], polarity: F) -> (split: i32)
    requires
        forall|item: &T| #[trigger] call_requires(polarity, (item,)),
        forall|item: &T, class: u16| #[trigger]
            call_ensures(polarity, (item,), class) ==> class == polarity_of_item(polarity, *item),
        partitionable(item_classes(polarity, old(points)@)),
    ensures
        split == storage_partition(item_classes(polarity, old(points)@)).1 as i32,
        final(points)@ == Seq::new(
            old(points)@.len(),
            |i: int|
                old(points)@[storage_partition(item_classes(polarity, old(points)@)).0[i]],
        ),
{
    let ghost before = points@;
    let ghost classes = item_classes(polarity, before);
    let n: usize = points.len();
    if n == 0 {
        assert(points@ =~= Seq::new(before.len(), |i: int| before[storage_partition(classes).0[i]]));
        return 0;
    }
    let ghost mut order = Seq::new(classes.len(), |i: int| i);
    let mut front: usize = 0;
    let mut back: usize = n - 1;
    while front < back
        invariant
            n == before.len(),
            n == points@.len(),
            classes == item_classes(polarity, before),
            partitionable(classes),
            forall|item: &T| #[trigger] call_requires(polarity, (item,)),
            forall|item: &T, class: u16| #[trigger]
                call_ensures(polarity, (item,), class) ==> class == polarity_of_item(polarity, *item),
            matching::is_permutation(order, n as nat),
            forall|j: int| 0 <= j < n ==> #[trigger] points@[j] == before[order[j]],
            front <= back < n,
            storage_partition_from(classes, order, front as int, back as int)
                == storage_partition(classes),
        decreases back - front,
    {
        let head: u16 = polarity(&points[front]);
        let tail: u16 = polarity(&points[back]);
        assert(head == classes[order[front as int]]);
        assert(tail == classes[order[back as int]]);
        if head % 4 == 0 {
            front = front + 1;
        } else if tail % 4 == 1 {
            back = back - 1;
        } else {
            swap_items(points, front, back);
            proof {
                order = order.update(front as int, order[back as int]).update(
                    back as int,
                    order[front as int],
                );
            }
            if tail % 4 == 0 {
                front = front + 1;
            } else {
                back = back - 1;
            }
        }
    }
    let class: u16 = polarity(&points[front]);
    assert(class == classes[order[front as int]]);
    if class % 4 == 0 {
        front = front + 1;
    }
    assert(points@ =~= Seq::new(before.len(), |i: int| before[storage_partition(classes).0[i]]));
    front as i32
}

/// Projects the points at the given positions of the order.
fn projected_points(points: &Vec<Gf3258ExtractedPrimaryPoint>, order: &Vec<usize>) -> (out: Vec<
    Gf3258EnrollmentFeaturePoint,
>)
    requires
        forall|i: int| 0 <= i < order@.len() ==> (#[trigger] order@[i]) < points@.len(),
    ensures
        out@.len() == order@.len(),
        forall|i: int|
            0 <= i < out@.len() ==> is_mode0_point(
                #[trigger] out@[i],
                points@[order@[i] as int],
            ),
{
    let mut out: Vec<Gf3258EnrollmentFeaturePoint> = Vec::with_capacity(order.len());
    for i in 0..order.len()
        invariant
            forall|i: int| 0 <= i < order@.len() ==> (#[trigger] order@[i]) < points@.len(),
            out@.len() == i,
            forall|j: int|
                0 <= j < i ==> is_mode0_point(#[trigger] out@[j], points@[order@[j] as int]),
    {
        let at: usize = order[i];
        assert(order@[i as int] < points@.len());
        out.push(gf3258_enrollment_mode0_point(&points[at]));
    }
    out
}

/// Polarities of extracted points.
fn extracted_classes(points: &Vec<Gf3258ExtractedPrimaryPoint>) -> (classes: Vec<u16>)
    ensures
        classes@ == matching::extracted_polarities(points@),
        partitionable(classes@),
{
    let mut classes: Vec<u16> = Vec::with_capacity(points.len());
    for i in 0..points.len()
        invariant
            classes@.len() == i,
            forall|j: int|
                0 <= j < i ==> #[trigger] classes@[j] == matching::extracted_polarities(
                    points@,
                )[j],
    {
        classes.push(gf3258_matcher_polarity_from_raw_response(points[i].candidate.raw.response));
    }
    assert(classes@ =~= matching::extracted_polarities(points@));
    classes
}

/// The points of `out` are the projections of `points` in storage order.
pub open spec fn in_storage_order(
    out: Seq<Gf3258EnrollmentFeaturePoint>,
    points: Seq<Gf3258ExtractedPrimaryPoint>,
) -> bool {
    let order = storage_partition(matching::extracted_polarities(points)).0;
    &&& out.len() == points.len()
    &&& forall|i: int|
        0 <= i < out.len() ==> is_mode0_point(#[trigger] out[i], points[order[i]])
}

/// The points of `out` are the projections of `points` in the same order.
pub open spec fn in_extracted_order(
    out: Seq<Gf3258EnrollmentFeaturePoint>,
    points: Seq<Gf3258ExtractedPrimaryPoint>,
) -> bool {
    &&& out.len() == points.len()
    &&& forall|i: int| 0 <= i < out.len() ==> is_mode0_point(#[trigger] out[i], points[i])
}

/// Where the storage order of the points splits.
pub open spec fn storage_split(points: Seq<Gf3258ExtractedPrimaryPoint>) -> i32 {
    storage_partition(matching::extracted_polarities(points)).1 as i32
}

/// The maps and packed validity of a feature are those of a source and its
/// validity.
pub open spec fn has_maps_of<P, S, L>(
    feature: Gf3258EnrollmentReadyFeature,
    source: Seq<u8>,
    validity: Gf3258EnrollmentValidity,
    maps: &Gf3258MapOps<P, S, L>,
) -> bool where
    P: Fn(&[u8]) -> [u8; 160],
    S: Fn(&[u8], &[u8]) -> [u8; 160],
    L: Fn(&[u8]) -> [u8; 160],
 {
    let detector_source = extraction::detector_source_spec(source);
    &&& feature.primary_registration_map == maps.primary_spec(detector_source)
    &&& feature.secondary_registration_map == Some(
        maps.secondary_spec(
            orientation::gradient_source_spec(source),
            validity.bd720.mask_u8@,
        ),
    )
    &&& feature.low_threshold_registration_map == maps.low_threshold_spec(detector_source)
    &&& feature.quarter_validity_packed@ == registration::packed_cells(
        validity.quarter_validity@,
        40,
    )
    &&& feature.packed_validity@ == registration::packed_cells(
        registration::expanded_quarter(validity.quarter_validity@),
        160,
    )
}

/// The feature of an extraction: its points in both orders, the maps of its
/// source, and the scalars with the split and the capture quality filled in.
pub open spec fn is_ready_feature_of<P, S, L>(
    feature: Gf3258EnrollmentReadyFeature,
    extraction: Gf3258PrimaryFeatureExtraction,
    source: Seq<u8>,
    validity: Gf3258EnrollmentValidity,
    source_scalars: Gf3258PersistentSourceScalars,
    status: i32,
    maps: &Gf3258MapOps<P, S, L>,
) -> bool where
    P: Fn(&[u8]) -> [u8; 160],
    S: Fn(&[u8], &[u8]) -> [u8; 160],
    L: Fn(&[u8]) -> [u8; 160],
 {
    let capture = quality::capture_quality_spec(source);
    &&& in_extracted_order(feature.points@, extraction.points@)
    &&& in_storage_order(feature.persistent_points@, extraction.points@)
    &&& has_maps_of(feature, source, validity, maps)
    &&& feature.source_scalars == (Gf3258PersistentSourceScalars {
        scalar_108: storage_split(extraction.points@),
        c2d40_param3: capture.quality,
        c2d40_param4: capture.coverage,
        ..source_scalars
    })
    &&& feature.status == status
    &&& feature.persistence_complete
}

/// The error of an image of the wrong size.
pub open spec fn source_error(source: Seq<u8>) -> Option<Gf3258FeatureEnrollmentError> {
    if source.len() != GF3258_PIXELS {
        Some(
            Gf3258FeatureEnrollmentError::Feature(
                FeatureError::UnexpectedPixelCount {
                    expected: GF3258_PIXELS,
                    actual: source.len() as usize,
                },
            ),
        )
    } else {
        None
    }
}

/// The first of two errors.
pub open spec fn first_error(
    a: Option<Gf3258FeatureEnrollmentError>,
    b: Option<Gf3258FeatureEnrollmentError>,
) -> Option<Gf3258FeatureEnrollmentError> {
    match a {
        Some(error) => Some(error),
        None => b,
    }
}

/// The error of an image that is not 80x64, as a bare image.
pub open spec fn image_length_error(image: Seq<u8>) -> Option<Gf3258FeatureEnrollmentError> {
    if image.len() != GF3258_PIXELS {
        Some(
            Gf3258FeatureEnrollmentError::UnexpectedAlgorithmImageLength {
                expected: GF3258_PIXELS,
                actual: image.len() as usize,
            },
        )
    } else {
        None
    }
}

/// The error of a validity map that is not 40x32.
pub open spec fn validity_length_error(cells: Seq<u8>) -> Option<Gf3258FeatureEnrollmentError> {
    if cells.len() != GF3258_REGISTRATION_PIXELS {
        Some(
            Gf3258FeatureEnrollmentError::UnexpectedActiveValidityLength {
                expected: GF3258_REGISTRATION_PIXELS,
                actual: cells.len() as usize,
            },
        )
    } else {
        None
    }
}

/// The error of a capture whose raw quality is below the acceptance threshold.
pub open spec fn capture_error(source: Seq<u8>) -> Option<Gf3258FeatureEnrollmentError> {
    let capture = quality::capture_quality_spec(source);
    if capture.raw_quality < quality::GF3258_RAW_QUALITY_ACCEPT_THRESHOLD {
        Some(
            Gf3258FeatureEnrollmentError::CaptureQualityRejected {
                raw_quality: capture.raw_quality,
                final_quality: capture.quality,
                coverage: capture.coverage,
            },
        )
    } else {
        None
    }
}

fn copied_points(points: &Vec<Gf3258EnrollmentFeaturePoint>) -> (copy: Vec<
    Gf3258EnrollmentFeaturePoint,
>)
    ensures
        copy@ == points@,
{
    let mut copy: Vec<Gf3258EnrollmentFeaturePoint> = Vec::with_capacity(points.len());
    for i in 0..points.len()
        invariant
            copy@.len() == i,
            forall|j: int| 0 <= j < i ==> #[trigger] copy@[j] == points@[j],
    {
        copy.push(points[i]);
    }
    assert(copy@ =~= points@);
    copy
}

/// Number of ones in the first `n` bytes.
pub open spec fn ones_count(packed: Seq<u8>, n: nat) -> nat
    decreases n,
{
    if n == 0 {
        0
    } else {
        ones_count(packed, (n - 1) as nat) + matching::popcount(packed[n - 1] as nat)
    }
}

fn count_map_ones(packed: &[u8; 160]) -> (count: usize)
    ensures
        count == ones_count(packed@, 160),
{
    let mut count: usize = 0;
    for i in 0..160usize
        invariant
            count == ones_count(packed@, i as nat),
            count <= 32 * i,
    {
        count = count + matching::count_ones(packed[i] as u32) as usize;
    }
    count
}

#[derive(Debug, Clone, PartialEq, Eq)]
pub struct Gf3258EnrollmentFeatureDiagnostics {
    pub point_count: usize,
    pub primary_foreground_cells: usize,
    pub valid_cells: usize,
    pub has_secondary_map: bool,
    pub scalar_108: i32,
    pub c2d40_param3: i32,
    pub c2d40_param4: i32,
    pub status: i32,
}

/// The scalar that is stored: odd values above 1001 as they are, all others as
/// zero.
pub open spec fn stored_scalar_13c(value: i32) -> i32 {
    if value % 2 == 1 && value > 0x3e9 {
        value
    } else {
        0
    }
}

/// `state` is what is stored of a feature before it enters a template.
pub open spec fn is_persistent_state_of(
    state: Gf3258PersistentSampleState,
    feature: Gf3258EnrollmentReadyFeature,
) -> bool {
    &&& state.points@ == feature.persistent_points@
    &&& state.primary_registration_map == feature.primary_registration_map
    &&& state.secondary_registration_map == feature.secondary_registration_map
    &&& state.low_threshold_registration_map == feature.low_threshold_registration_map
    &&& state.quarter_validity_packed == feature.quarter_validity_packed
    &&& state.active_validity_packed == feature.packed_validity
    &&& !state.canonical_member
    &&& state.relation_checkpoint == 0
    &&& state.sample_index == 0
    &&& state.scalar_108 == feature.source_scalars.scalar_108
    &&& state.c2d40_param3 == feature.source_scalars.c2d40_param3
    &&& state.c2d40_param4 == feature.source_scalars.c2d40_param4
    &&& state.scalar_13c == stored_scalar_13c(feature.source_scalars.scalar_13c)
    &&& state.embedded_state_140 == feature.source_scalars.embedded_state_140
}

/// `points` are the registration points of feature points.
pub open spec fn are_registration_points(
    points: Seq<Gf3258RegistrationPoint>,
    of: Seq<Gf3258EnrollmentFeaturePoint>,
) -> bool {
    &&& points.len() == of.len()
    &&& forall|i: int|
        0 <= i < points.len() ==> {
            &&& (#[trigger] points[i]).x_q8 == of[i].core.x_q8
            &&& points[i].y_q8 == of[i].core.y_q8
            &&& points[i].descriptor_192@ == of[i].compact.point_bytes().take(24)
        }
}

/// The sample that the graph keeps of a feature.
pub open spec fn sample_of(feature: Gf3258EnrollmentReadyFeature) -> Gf3258EnrollmentSample {
    Gf3258EnrollmentSample {
        canonical_member: false,
        status: feature.status,
        primary_registration_map: feature.primary_registration_map,
        secondary_registration_map: feature.secondary_registration_map,
        packed_validity: feature.packed_validity,
    }
}

impl Gf3258EnrollmentReadyFeature {
    /// A feature from all its fields; the points are stored in the given order.
    pub fn from_feature_fields(
        points: Vec<Gf3258EnrollmentFeaturePoint>,
        primary_registration_map: [u8; 160],
        secondary_registration_map: Option<[u8; 160]>,
        low_threshold_registration_map: [u8; 160],
        quarter_validity_packed: [u8; 40],
        packed_validity: [u8; 160],
        source_scalars: Gf3258PersistentSourceScalars,
        status: i32,
    ) -> (result: Result<Self, Gf3258FeatureEnrollmentError>)
        ensures
            match point_count_error(points@.len()) {
                Some(error) => result == Err::<
                    Gf3258EnrollmentReadyFeature,
                    Gf3258FeatureEnrollmentError,
                >(error),
                None => {
                    &&& result is Ok
                    &&& result->Ok_0.points@ == points@
                    &&& result->Ok_0.persistent_points@ == points@
                    &&& result->Ok_0.primary_registration_map == primary_registration_map
                    &&& result->Ok_0.secondary_registration_map == secondary_registration_map
                    &&& result->Ok_0.low_threshold_registration_map
                        == low_threshold_registration_map
                    &&& result->Ok_0.quarter_validity_packed == quarter_validity_packed
                    &&& result->Ok_0.packed_validity == packed_validity
                    &&& result->Ok_0.source_scalars == source_scalars
                    &&& result->Ok_0.status == status
                    &&& result->Ok_0.persistence_complete
                },
            },
    {
        match validate_point_count(points.len()) {
            Ok(()) => {},
            Err(error) => {
                return Err(error);
            },
        }
        let persistent_points: Vec<Gf3258EnrollmentFeaturePoint> = copied_points(&points);
        Ok(
            Gf3258EnrollmentReadyFeature {
                points,
                persistent_points,
                primary_registration_map,
                secondary_registration_map,
                low_threshold_registration_map,
                quarter_validity_packed,
                packed_validity,
                source_scalars,
                status,
                persistence_complete: true,
            },
        )
    }

    /// The feature of an extraction: points in extracted order for registration
    /// and in storage order for storage, quality scalars of the source, and the
    /// maps of the source.
    pub fn from_primary_extraction_from_c2d40_source<P, S, L>(
        extraction: &Gf3258PrimaryFeatureExtraction,
        c2d40_source: &[u8],
        validity: &Gf3258EnrollmentValidity,
        source_scalars: Gf3258PersistentSourceScalars,
        status: i32,
        maps: &Gf3258MapOps<P, S, L>,
    ) -> (result: Result<Self, Gf3258FeatureEnrollmentError>) where
        P: Fn(&[u8]) -> [u8; 160],
        S: Fn(&[u8], &[u8]) -> [u8; 160],
        L: Fn(&[u8]) -> [u8; 160],

        requires
            maps.deterministic(),
        ensures
            match first_error(
                point_count_error(extraction.points@.len()),
                first_error(
                    binary_error(validity.quarter_validity@, true, 320),
                    source_error(c2d40_source@),
                ),
            ) {
                Some(error) => result == Err::<
                    Gf3258EnrollmentReadyFeature,
                    Gf3258FeatureEnrollmentError,
                >(error),
                None => result is Ok && is_ready_feature_of(
                    result->Ok_0,
                    *extraction,
                    c2d40_source@,
                    *validity,
                    source_scalars,
                    status,
                    maps,
                ),
            },
    {
        match validate_point_count(extraction.points.len()) {
            Ok(()) => {},
            Err(error) => {
                return Err(error);
            },
        }
        match validate_binary_map(validity.quarter_validity.as_slice(), true) {
            Ok(()) => {},
            Err(error) => {
                return Err(error);
            },
        }
        let prepared: Gf3258PreparedC0910Inputs =
            match gf3258_prepare_c0910_inputs_from_c2d40_source(c2d40_source) {
            Ok(prepared) => prepared,
            Err(error) => {
                return Err(Gf3258FeatureEnrollmentError::Feature(error));
            },
        };
        let capture: Gf3258CaptureQuality = match gf3258_capture_quality(c2d40_source) {
            Ok(capture) => capture,
            Err(error) => {
                return Err(Gf3258FeatureEnrollmentError::Feature(error));
            },
        };
        let classes: Vec<u16> = extracted_classes(&extraction.points);
        let (order, split): (Vec<usize>, usize) = storage_order(&classes);
        let mut extracted: Vec<usize> = Vec::with_capacity(order.len());
        for i in 0..order.len()
            invariant
                extracted@.len() == i,
                forall|j: int| 0 <= j < i ==> #[trigger] extracted@[j] == j,
        {
            extracted.push(i);
        }
        let points: Vec<Gf3258EnrollmentFeaturePoint> = projected_points(
            &extraction.points,
            &extracted,
        );
        let persistent_points: Vec<Gf3258EnrollmentFeaturePoint> = projected_points(
            &extraction.points,
            &order,
        );
        let active: [u8; 1280] = gf3258_expand_quarter_validity(&validity.quarter_validity);
        Ok(
            Gf3258EnrollmentReadyFeature {
                points,
                persistent_points,
                primary_registration_map: maps.primary_map(prepared.detector_source_u8.as_slice()),
                secondary_registration_map: Some(
                    maps.secondary_map(
                        prepared.gradient_source_u8.as_slice(),
                        validity.bd720.mask_u8.as_slice(),
                    ),
                ),
                low_threshold_registration_map: maps.low_threshold_map(
                    prepared.detector_source_u8.as_slice(),
                ),
                quarter_validity_packed: gf3258_pack_quarter_validity(&validity.quarter_validity),
                packed_validity: gf3258_pack_active_validity(&active),
                source_scalars: Gf3258PersistentSourceScalars {
                    scalar_108: split as i32,
                    c2d40_param3: capture.quality,
                    c2d40_param4: capture.coverage,
                    scalar_13c: source_scalars.scalar_13c,
                    embedded_state_140: source_scalars.embedded_state_140,
                },
                status,
                persistence_complete: true,
            },
        )
    }

    /// The feature of an extraction whose capture passes the quality gate, with
    /// all points in storage order.
    pub fn from_primary_extraction_for_enrollment<P, S, L>(
        extraction: &Gf3258PrimaryFeatureExtraction,
        c2d40_source: &[u8],
        validity: &Gf3258EnrollmentValidity,
        status: i32,
        maps: &Gf3258MapOps<P, S, L>,
    ) -> (result: Result<Self, Gf3258FeatureEnrollmentError>) where
        P: Fn(&[u8]) -> [u8; 160],
        S: Fn(&[u8], &[u8]) -> [u8; 160],
        L: Fn(&[u8]) -> [u8; 160],

        requires
            maps.deterministic(),
        ensures
            match first_error(
                binary_error(validity.quarter_validity@, true, 320),
                first_error(
                    source_error(c2d40_source@),
                    first_error(
                        capture_error(c2d40_source@),
                        point_count_error(extraction.points@.len()),
                    ),
                ),
            ) {
                Some(error) => result == Err::<
                    Gf3258EnrollmentReadyFeature,
                    Gf3258FeatureEnrollmentError,
                >(error),
                None => {
                    let capture = quality::capture_quality_spec(c2d40_source@);
                    &&& result is Ok
                    &&& in_storage_order(result->Ok_0.points@, extraction.points@)
                    &&& result->Ok_0.persistent_points@ == result->Ok_0.points@
                    &&& has_maps_of(result->Ok_0, c2d40_source@, *validity, maps)
                    &&& result->Ok_0.source_scalars == (Gf3258PersistentSourceScalars {
                        scalar_108: storage_split(extraction.points@),
                        c2d40_param3: capture.quality,
                        c2d40_param4: capture.coverage,
                        scalar_13c: 0,
                        embedded_state_140: 0,
                    })
                    &&& result->Ok_0.status == status
                    &&& result->Ok_0.persistence_complete
                },
            },
    {
        match validate_binary_map(validity.quarter_validity.as_slice(), true) {
            Ok(()) => {},
            Err(error) => {
                return Err(error);
            },
        }
        let capture: Gf3258CaptureQuality = match gf3258_capture_quality(c2d40_source) {
            Ok(capture) => capture,
            Err(error) => {
                return Err(Gf3258FeatureEnrollmentError::Feature(error));
            },
        };
        if !capture.accepted_for_enrollment() {
            return Err(
                Gf3258FeatureEnrollmentError::CaptureQualityRejected {
                    raw_quality: capture.raw_quality,
                    final_quality: capture.quality,
                    coverage: capture.coverage,
                },
            );
        }
        let prepared: Gf3258PreparedC0910Inputs =
            match gf3258_prepare_c0910_inputs_from_c2d40_source(c2d40_source) {
            Ok(prepared) => prepared,
            Err(error) => {
                return Err(Gf3258FeatureEnrollmentError::Feature(error));
            },
        };
        let classes: Vec<u16> = extracted_classes(&extraction.points);
        let (order, split): (Vec<usize>, usize) = storage_order(&classes);
        let points: Vec<Gf3258EnrollmentFeaturePoint> = projected_points(
            &extraction.points,
            &order,
        );
        let active: [u8; 1280] = gf3258_expand_quarter_validity(&validity.quarter_validity);
        let source_scalars: Gf3258PersistentSourceScalars = Gf3258PersistentSourceScalars {
            scalar_108: split as i32,
            c2d40_param3: capture.quality,
            c2d40_param4: capture.coverage,
            scalar_13c: 0,
            embedded_state_140: 0,
        };
        Self::from_feature_fields(
            points,
            maps.primary_map(prepared.detector_source_u8.as_slice()),
            Some(
                maps.secondary_map(
                    prepared.gradient_source_u8.as_slice(),
                    validity.bd720.mask_u8.as_slice(),
                ),
            ),
            maps.low_threshold_map(prepared.detector_source_u8.as_slice()),
            gf3258_pack_quarter_validity(&validity.quarter_validity),
            gf3258_pack_active_validity(&active),
            source_scalars,
            status,
        )
    }

    /// A feature from points, an image and a validity map; what would be stored
    /// of it is not all known.
    pub fn from_algorithm_outputs<P, S, L>(
        points: Vec<Gf3258EnrollmentFeaturePoint>,
        algorithm_image: &[u8],
        active_validity: &[u8],
        secondary_registration_map: Option<[u8; 160]>,
        status: i32,
        maps: &Gf3258MapOps<P, S, L>,
    ) -> (result: Result<Self, Gf3258FeatureEnrollmentError>) where
        P: Fn(&[u8]) -> [u8; 160],
        S: Fn(&[u8], &[u8]) -> [u8; 160],
        L: Fn(&[u8]) -> [u8; 160],

        requires
            maps.deterministic(),
        ensures
            match first_error(
                point_count_error(points@.len()),
                first_error(
                    image_length_error(algorithm_image@),
                    first_error(
                        validity_length_error(active_validity@),
                        binary_error(active_validity@, false, active_validity@.len()),
                    ),
                ),
            ) {
                Some(error) => result == Err::<
                    Gf3258EnrollmentReadyFeature,
                    Gf3258FeatureEnrollmentError,
                >(error),
                None => {
                    &&& result is Ok
                    &&& result->Ok_0.points@ == points@
                    &&& result->Ok_0.persistent_points@ == points@
                    &&& result->Ok_0.primary_registration_map == maps.primary_spec(
                        algorithm_image@,
                    )
                    &&& result->Ok_0.secondary_registration_map == secondary_registration_map
                    &&& result->Ok_0.low_threshold_registration_map == maps.low_threshold_spec(
                        algorithm_image@,
                    )
                    &&& result->Ok_0.quarter_validity_packed@ == Seq::new(40, |i: int| 0u8)
                    &&& result->Ok_0.packed_validity@ == registration::packed_cells(
                        active_validity@,
                        160,
                    )
                    &&& result->Ok_0.source_scalars == (Gf3258PersistentSourceScalars {
                        scalar_108: 0,
                        c2d40_param3: 0,
                        c2d40_param4: 0,
                        scalar_13c: 0,
                        embedded_state_140: 0,
                    })
                    &&& result->Ok_0.status == status
                    &&& !result->Ok_0.persistence_complete
                },
            },
    {
        match validate_point_count(points.len()) {
            Ok(()) => {},
            Err(error) => {
                return Err(error);
            },
        }
        if algorithm_image.len() != GF3258_PIXELS {
            return Err(
                Gf3258FeatureEnrollmentError::UnexpectedAlgorithmImageLength {
                    expected: GF3258_PIXELS,
                    actual: algorithm_image.len(),
                },
            );
        }
        if active_validity.len() != GF3258_REGISTRATION_PIXELS {
            return Err(
                Gf3258FeatureEnrollmentError::UnexpectedActiveValidityLength {
                    expected: GF3258_REGISTRATION_PIXELS,
                    actual: active_validity.len(),
                },
            );
        }
        match validate_binary_map(active_validity, false) {
            Ok(()) => {},
            Err(error) => {
                return Err(error);
            },
        }
        let mut active: [u8; 1280] = [0u8;1280];
        for i in 0..1280usize
            invariant
                active_validity@.len() == 1280,
                forall|j: int| 0 <= j < i ==> #[trigger] active@[j] == active_validity@[j],
        {
            active[i] = active_validity[i];
        }
        assert(active@ =~= active_validity@);
        let persistent_points: Vec<Gf3258EnrollmentFeaturePoint> = copied_points(&points);
        let quarter_validity_packed: [u8; 40] = [0u8;40];
        assert(quarter_validity_packed@ =~= Seq::new(40, |i: int| 0u8));
        Ok(
            Gf3258EnrollmentReadyFeature {
                points,
                persistent_points,
                primary_registration_map: maps.primary_map(algorithm_image),
                secondary_registration_map,
                low_threshold_registration_map: maps.low_threshold_map(algorithm_image),
                quarter_validity_packed,
                packed_validity: gf3258_pack_active_validity(&active),
                source_scalars: Gf3258PersistentSourceScalars::default(),
                status,
                persistence_complete: false,
            },
        )
    }

    /// A feature from points, an image and a quarter-resolution validity grid.
    pub fn from_algorithm_outputs_with_quarter_validity<P, S, L>(
        points: Vec<Gf3258EnrollmentFeaturePoint>,
        algorithm_image: &[u8],
        quarter_validity: &[u8; 320],
        secondary_registration_map: Option<[u8; 160]>,
        status: i32,
        maps: &Gf3258MapOps<P, S, L>,
    ) -> (result: Result<Self, Gf3258FeatureEnrollmentError>) where
        P: Fn(&[u8]) -> [u8; 160],
        S: Fn(&[u8], &[u8]) -> [u8; 160],
        L: Fn(&[u8]) -> [u8; 160],

        requires
            maps.deterministic(),
        ensures
            match first_error(
                binary_error(quarter_validity@, true, 320),
                first_error(
                    image_length_error(algorithm_image@),
                    point_count_error(points@.len()),
                ),
            ) {
                Some(error) => result == Err::<
                    Gf3258EnrollmentReadyFeature,
                    Gf3258FeatureEnrollmentError,
                >(error),
                None => {
                    &&& result is Ok
                    &&& result->Ok_0.points@ == points@
                    &&& result->Ok_0.persistent_points@ == points@
                    &&& result->Ok_0.primary_registration_map == maps.primary_spec(
                        algorithm_image@,
                    )
                    &&& result->Ok_0.secondary_registration_map == secondary_registration_map
                    &&& result->Ok_0.low_threshold_registration_map == maps.low_threshold_spec(
                        algorithm_image@,
                    )
                    &&& result->Ok_0.quarter_validity_packed@ == registration::packed_cells(
                        quarter_validity@,
                        40,
                    )
                    &&& result->Ok_0.packed_validity@ == registration::packed_cells(
                        registration::expanded_quarter(quarter_validity@),
                        160,
                    )
                    &&& result->Ok_0.source_scalars == (Gf3258PersistentSourceScalars {
                        scalar_108: 0,
                        c2d40_param3: 0,
                        c2d40_param4: 0,
                        scalar_13c: 0,
                        embedded_state_140: 0,
                    })
                    &&& result->Ok_0.status == status
                    &&& result->Ok_0.persistence_complete
                },
            },
    {
        match validate_binary_map(quarter_validity.as_slice(), true) {
            Ok(()) => {},
            Err(error) => {
                return Err(error);
            },
        }
        if algorithm_image.len() != GF3258_PIXELS {
            return Err(
                Gf3258FeatureEnrollmentError::UnexpectedAlgorithmImageLength {
                    expected: GF3258_PIXELS,
                    actual: algorithm_image.len(),
                },
            );
        }
        let active: [u8; 1280] = gf3258_expand_quarter_validity(quarter_validity);
        Self::from_feature_fields(
            points,
            maps.primary_map(algorithm_image),
            secondary_registration_map,
            maps.low_threshold_map(algorithm_image),
            gf3258_pack_quarter_validity(quarter_validity),
            gf3258_pack_active_validity(&active),
            Gf3258PersistentSourceScalars::default(),
            status,
        )
    }

    /// What is stored of this feature.
    pub fn persistent_state(&self) -> (result: Result<
        Gf3258PersistentSampleState,
        Gf3258FeatureEnrollmentError,
    >)
        ensures
            if self.persistence_complete {
                result is Ok && is_persistent_state_of(result->Ok_0, *self)
            } else {
                result == Err::<Gf3258PersistentSampleState, Gf3258FeatureEnrollmentError>(
                    Gf3258FeatureEnrollmentError::PersistenceStateIncomplete,
                )
            },
    {
        if !self.persistence_complete {
            return Err(Gf3258FeatureEnrollmentError::PersistenceStateIncomplete);
        }
        let value: i32 = self.source_scalars.scalar_13c;
        let scalar_13c: i32 = if value > 0x3e9 && value % 2 == 1 {
            value
        } else {
            0
        };
        Ok(
            Gf3258PersistentSampleState {
                points: copied_points(&self.persistent_points),
                primary_registration_map: self.primary_registration_map,
                secondary_registration_map: self.secondary_registration_map,
                low_threshold_registration_map: self.low_threshold_registration_map,
                quarter_validity_packed: self.quarter_validity_packed,
                active_validity_packed: self.packed_validity,
                canonical_member: false,
                relation_checkpoint: 0,
                sample_index: 0,
                scalar_108: self.source_scalars.scalar_108,
                c2d40_param3: self.source_scalars.c2d40_param3,
                c2d40_param4: self.source_scalars.c2d40_param4,
                scalar_13c,
                embedded_state_140: self.source_scalars.embedded_state_140,
            },
        )
    }

    pub fn registration_points(&self) -> (points: Vec<Gf3258RegistrationPoint>)
        ensures
            are_registration_points(points@, self.points@),
    {
        let mut points: Vec<Gf3258RegistrationPoint> = Vec::with_capacity(self.points.len());
        for i in 0..self.points.len()
            invariant
                points@.len() == i,
                forall|j: int|
                    0 <= j < i ==> {
                        &&& (#[trigger] points@[j]).x_q8 == self.points@[j].core.x_q8
                        &&& points@[j].y_q8 == self.points@[j].core.y_q8
                        &&& points@[j].descriptor_192@
                            == self.points@[j].compact.point_bytes().take(24)
                    },
        {
            points.push(self.points[i].registration_point());
        }
        points
    }

    pub fn enrollment_sample(&self) -> (sample: Gf3258EnrollmentSample)
        ensures
            sample == sample_of(*self),
    {
        Gf3258EnrollmentSample {
            canonical_member: false,
            status: self.status,
            primary_registration_map: self.primary_registration_map,
            secondary_registration_map: self.secondary_registration_map,
            packed_validity: self.packed_validity,
        }
    }

    pub fn diagnostics(&self) -> (diagnostics: Gf3258EnrollmentFeatureDiagnostics)
        ensures
            diagnostics == diagnostics_of(*self),
    {
        Gf3258EnrollmentFeatureDiagnostics {
            point_count: self.points.len(),
            primary_foreground_cells: count_map_ones(&self.primary_registration_map),
            valid_cells: count_map_ones(&self.packed_validity),
            has_secondary_map: self.secondary_registration_map.is_some(),
            scalar_108: self.source_scalars.scalar_108,
            c2d40_param3: self.source_scalars.c2d40_param3,
            c2d40_param4: self.source_scalars.c2d40_param4,
            status: self.status,
        }
    }
}

/// The diagnostics of a feature.
pub open spec fn diagnostics_of(
    feature: Gf3258EnrollmentReadyFeature,
) -> Gf3258EnrollmentFeatureDiagnostics {
    Gf3258EnrollmentFeatureDiagnostics {
        point_count: feature.points@.len() as usize,
        primary_foreground_cells: ones_count(feature.primary_registration_map@, 160) as usize,
        valid_cells: ones_count(feature.packed_validity@, 160) as usize,
        has_secondary_map: feature.secondary_registration_map is Some,
        scalar_108: feature.source_scalars.scalar_108,
        c2d40_param3: feature.source_scalars.c2d40_param3,
        c2d40_param4: feature.source_scalars.c2d40_param4,
        status: feature.status,
    }
}

#[derive(Debug, Clone, PartialEq, Eq)]
pub struct Gf3258EnrollmentStepResult {
    pub feature: Gf3258EnrollmentFeatureDiagnostics,
    pub enrollment: Gf3258EnrollmentAddResult,
}

/// Points and stored state that a feature enters a template with.
pub open spec fn is_entry_of(
    points: Seq<Gf3258RegistrationPoint>,
    persistent: Option<Gf3258PersistentSampleState>,
    feature: Gf3258EnrollmentReadyFeature,
) -> bool {
    &&& are_registration_points(points, feature.points@)
    &&& persistent is Some <==> feature.persistence_complete
    &&& persistent is Some ==> is_persistent_state_of(persistent->Some_0, feature)
}

/// `result` reports the addition of a feature, which came to `outcome`.
pub open spec fn reports_step(
    result: Result<Gf3258EnrollmentStepResult, Gf3258FeatureEnrollmentError>,
    outcome: Result<enrollment_add::AddOutcome, Gf3258EnrollmentAddError>,
    graph: crate::enrollment_graph::GraphState,
    feature: Gf3258EnrollmentReadyFeature,
) -> bool {
    match result {
        Ok(step) => {
            &&& step.feature == diagnostics_of(feature)
            &&& enrollment_add::reports(
                Ok::<Gf3258EnrollmentAddResult, Gf3258EnrollmentAddError>(step.enrollment),
                outcome,
                graph,
            )
        },
        Err(error) => outcome is Err && error == Gf3258FeatureEnrollmentError::EnrollmentAdd(
            outcome->Err_0,
        ),
    }
}

/// Adds a feature to a template.
pub fn gf3258_add_extracted_feature<R, S, A, I, C, N>(
    template: &mut Gf3258EnrollmentTemplateCore,
    feature: Gf3258EnrollmentReadyFeature,
    engine: &Gf3258RegistrationEngine<R, S, A, I, C, N>,
) -> (result: Result<Gf3258EnrollmentStepResult, Gf3258FeatureEnrollmentError>) where
    R: Fn(&[Gf3258RegistrationPoint], &[Gf3258RegistrationPoint]) -> Option<
        Gf3258PointRegistration,
    >,
    S: Fn(&[Gf3258EnrollmentSample], usize, usize, Gf3258AffineQ8) -> Gf3258RegistrationMapScores,
    A: Fn(usize, i32, i32) -> bool,
    I: Fn(Gf3258AffineQ8) -> Gf3258AffineQ8,
    C: Fn(Gf3258AffineQ8, Gf3258AffineQ8) -> Gf3258AffineQ8,
    N: Fn(&[u8; 160], &[Gf3258AffineQ8]) -> i32,

    requires
        old(template).wf(),
        engine.deterministic(),
    ensures
        final(template).wf(),
        exists|
            points: Seq<Gf3258RegistrationPoint>,
            persistent: Option<Gf3258PersistentSampleState>,
        | #[trigger]
            is_entry_of(points, persistent, feature) && {
                let (state, outcome) = enrollment_add::added(
                    old(template).state(),
                    engine.model(),
                    points,
                    sample_of(feature),
                    persistent,
                    GF3258_ENROLLMENT_GRAPH_SCORE_THRESHOLD,
                );
                final(template).state() == state && reports_step(
                    result,
                    outcome,
                    state.graph,
                    feature,
                )
            },
{
    let diagnostics: Gf3258EnrollmentFeatureDiagnostics = feature.diagnostics();
    let points: Vec<Gf3258RegistrationPoint> = feature.registration_points();
    let sample: Gf3258EnrollmentSample = feature.enrollment_sample();
    let ghost entered = points@;
    let ghost mut stored: Option<Gf3258PersistentSampleState> = None;
    let added: Result<Gf3258EnrollmentAddResult, Gf3258EnrollmentAddError> =
        if feature.persistence_complete {
        let persistent: Gf3258PersistentSampleState = match feature.persistent_state() {
            Ok(persistent) => persistent,
            Err(error) => {
                assert(false);
                return Err(error);
            },
        };
        proof {
            stored = Some(persistent);
        }
        template.add_persistent_sample(
            points,
            sample,
            persistent,
            GF3258_ENROLLMENT_GRAPH_SCORE_THRESHOLD,
            engine,
        )
    } else {
        template.add_sample(points, sample, GF3258_ENROLLMENT_GRAPH_SCORE_THRESHOLD, engine)
    };
    assert(is_entry_of(entered, stored, feature));
    match added {
        Ok(enrollment) => Ok(Gf3258EnrollmentStepResult { feature: diagnostics, enrollment }),
        Err(error) => Err(Gf3258FeatureEnrollmentError::EnrollmentAdd(error)),
    }
}

/// An empty template with the sensor's capacities.
pub fn gf3258_new_enrollment_template() -> (template: Gf3258EnrollmentTemplateCore)
    ensures
        template.wf(),
        enrollment_add::is_empty_template(
            template.state(),
            GF3258_ENROLLMENT_STORAGE_CAPACITY,
            GF3258_ENROLLMENT_CONFIGURED_MAX_SAMPLES,
        ),
{
    Gf3258EnrollmentTemplateCore::new_with_configured_max_samples(
        GF3258_ENROLLMENT_STORAGE_CAPACITY,
        GF3258_ENROLLMENT_CONFIGURED_MAX_SAMPLES,
    )
}

/// A binary map has no error.
pub proof fn lemma_binary_map_is_valid(cells: Seq<u8>, quarter: bool, n: nat)
    requires
        n <= cells.len(),
        registration::is_binary(cells),
    ensures
        binary_error(cells, quarter, n) is None,
    decreases n,
{
    if n > 0 {
        lemma_binary_map_is_valid(cells, quarter, (n - 1) as nat);
        assert(cells[n - 1] <= 1);
    }
}

impl Gf3258FeatureEnrollmentError {
    pub open spec fn message_spec(&self) -> Seq<char> {
        match self {
            Gf3258FeatureEnrollmentError::TooManyPoints { actual, capacity } => {
                "GF3258 Feature has "@ + text::decimal(*actual as nat)
                    + " points; recovered capacity is "@ + text::decimal(*capacity as nat)
            },
            Gf3258FeatureEnrollmentError::UnexpectedAlgorithmImageLength { expected, actual } => {
                "GF3258 algorithm image has "@ + text::decimal(*actual as nat)
                    + " bytes; expected "@ + text::decimal(*expected as nat)
            },
            Gf3258FeatureEnrollmentError::UnexpectedActiveValidityLength { expected, actual } => {
                "GF3258 active validity map has "@ + text::decimal(*actual as nat)
                    + " cells; expected "@ + text::decimal(*expected as nat)
            },
            Gf3258FeatureEnrollmentError::NonBinaryActiveValidity { index, value } => {
                "GF3258 active validity cell "@ + text::decimal(*index as nat) + " is "@
                    + text::decimal(*value as nat) + "; expected binary 0/1"@
            },
            Gf3258FeatureEnrollmentError::NonBinaryQuarterValidity { index, value } => {
                "GF3258 quarter validity cell "@ + text::decimal(*index as nat) + " is "@
                    + text::decimal(*value as nat) + "; expected binary 0/1"@
            },
            Gf3258FeatureEnrollmentError::CaptureQualityRejected { raw_quality, final_quality, coverage } => {
                "GF3258 capture rejected by vendor raw-quality gate: raw="@
                    + text::signed_decimal(*raw_quality as int) + " final="@
                    + text::signed_decimal(*final_quality as int) + " coverage="@
                    + text::signed_decimal(*coverage as int)
            },
            Gf3258FeatureEnrollmentError::Feature(error) => {
                "GF3258 feature preparation failed: "@ + error.message_spec()
            },
            Gf3258FeatureEnrollmentError::PersistenceStateIncomplete => {
                "GF3258 feature was built through a legacy boundary that does not retain exact persistence state"@
            },
            Gf3258FeatureEnrollmentError::EnrollmentAdd(error) => {
                "GF3258 enrollment add failed: "@ + error.debug_text_spec()
            },
        }
    }

    /// The message of this error.
    pub fn message(&self) -> (text: String)
        ensures
            text@ == self.message_spec(),
    {
        match self {
            Gf3258FeatureEnrollmentError::TooManyPoints { actual, capacity } => {
                let mut out: String = "GF3258 Feature has ".to_owned();
                text::push_decimal(&mut out, *actual as u64);
                out.append(" points; recovered capacity is ");
                text::push_decimal(&mut out, *capacity as u64);
                out
            },
            Gf3258FeatureEnrollmentError::UnexpectedAlgorithmImageLength { expected, actual } => {
                let mut out: String = "GF3258 algorithm image has ".to_owned();
                text::push_decimal(&mut out, *actual as u64);
                out.append(" bytes; expected ");
                text::push_decimal(&mut out, *expected as u64);
                out
            },
            Gf3258FeatureEnrollmentError::UnexpectedActiveValidityLength { expected, actual } => {
                let mut out: String = "GF3258 active validity map has ".to_owned();
                text::push_decimal(&mut out, *actual as u64);
                out.append(" cells; expected ");
                text::push_decimal(&mut out, *expected as u64);
                out
            },
            Gf3258FeatureEnrollmentError::NonBinaryActiveValidity { index, value } => {
                let mut out: String = "GF3258 active validity cell ".to_owned();
                text::push_decimal(&mut out, *index as u64);
                out.append(" is ");
                text::push_decimal(&mut out, *value as u64);
                out.append("; expected binary 0/1");
                out
            },
            Gf3258FeatureEnrollmentError::NonBinaryQuarterValidity { index, value } => {
                let mut out: String = "GF3258 quarter validity cell ".to_owned();
                text::push_decimal(&mut out, *index as u64);
                out.append(" is ");
                text::push_decimal(&mut out, *value as u64);
                out.append("; expected binary 0/1");
                out
            },
            Gf3258FeatureEnrollmentError::CaptureQualityRejected { raw_quality, final_quality, coverage } => {
                let mut out: String =
                    "GF3258 capture rejected by vendor raw-quality gate: raw=".to_owned();
                text::push_signed(&mut out, *raw_quality);
                out.append(" final=");
                text::push_signed(&mut out, *final_quality);
                out.append(" coverage=");
                text::push_signed(&mut out, *coverage);
                out
            },
            Gf3258FeatureEnrollmentError::Feature(error) => {
                let mut out: String = "GF3258 feature preparation failed: ".to_owned();
                out.append(error.message().as_str());
                out
            },
            Gf3258FeatureEnrollmentError::PersistenceStateIncomplete => {
                "GF3258 feature was built through a legacy boundary that does not retain exact persistence state".to_owned()
            },
            Gf3258FeatureEnrollmentError::EnrollmentAdd(error) => {
                let mut out: String = "GF3258 enrollment add failed: ".to_owned();
                out.append(error.debug_text().as_str());
                out
            },
        }
    }
}

} // verus!
