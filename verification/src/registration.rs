//! Transforms between enrolled samples and the table of their pair relations.
use vstd::prelude::*;

use crate::feature::descriptor::Gf3258CompactDescriptor;
use crate::feature::Gf3258FeaturePointCore;

verus! {

/// Bytes of a packed 40x32 registration map.
pub const GF3258_REGISTRATION_PACKED_BYTES: usize = 160;

/// Least map score of a sample that joins the canonical component through the
/// current one.
pub const GF3258_REGISTRATION_SCORE_WEAK: i32 = 209;

/// An affine map in Q8 arithmetic.
#[derive(Debug, Clone, Copy, PartialEq, Eq)]
pub struct Gf3258AffineQ8 {
    pub a: i32,
    pub b: i32,
    pub c: i32,
    pub d: i32,
    pub tx: i32,
    pub ty: i32,
}

impl Gf3258AffineQ8 {
    pub open spec fn identity_spec() -> Self {
        Gf3258AffineQ8 { a: 0x100, b: 0, c: 0, d: 0x100, tx: 0, ty: 0 }
    }

    pub fn identity() -> (t: Self)
        ensures
            t == Self::identity_spec(),
    {
        Gf3258AffineQ8 { a: 0x100, b: 0, c: 0, d: 0x100, tx: 0, ty: 0 }
    }
}

/// Relation of two samples. A negative value marks an absent edge.
#[derive(Debug, Clone, Copy, PartialEq, Eq)]
pub struct Gf3258PairRelation {
    pub relation_value: i32,
    /// Transform from the sample with the higher index to the other one.
    pub transform_higher_to_lower: Gf3258AffineQ8,
}

/// The record of a pair without an edge.
pub open spec fn absent_relation() -> Gf3258PairRelation {
    Gf3258PairRelation {
        relation_value: -1i32,
        transform_higher_to_lower: Gf3258AffineQ8::identity_spec(),
    }
}

/// Record of a pair of different indices below the capacity, whatever their
/// order.
pub open spec fn table_record(rows: Seq<Seq<Gf3258PairRelation>>, x: int, y: int) -> Option<
    Gf3258PairRelation,
> {
    if x == y || x >= rows.len() || y >= rows.len() {
        None
    } else if x > y {
        Some(rows[x][y])
    } else {
        Some(rows[y][x])
    }
}

/// The rows with one record replaced; indices without a record change nothing.
pub open spec fn with_record(
    rows: Seq<Seq<Gf3258PairRelation>>,
    x: int,
    y: int,
    record: Gf3258PairRelation,
) -> Seq<Seq<Gf3258PairRelation>> {
    if x == y || x >= rows.len() || y >= rows.len() {
        rows
    } else if x > y {
        rows.update(x, rows[x].update(y, record))
    } else {
        rows.update(y, rows[y].update(x, record))
    }
}

/// Row `x` holds one record per lower index.
pub open spec fn is_triangular(rows: Seq<Seq<Gf3258PairRelation>>) -> bool {
    forall|x: int| 0 <= x < rows.len() ==> (#[trigger] rows[x]).len() == x
}

/// Triangular table of the pair relations of a bounded number of samples.
#[derive(Debug, Clone, PartialEq, Eq)]
pub struct Gf3258PairRelationTable {
    rows: Vec<Vec<Gf3258PairRelation>>,
}

impl View for Gf3258PairRelationTable {
    type V = Seq<Seq<Gf3258PairRelation>>;

    closed spec fn view(&self) -> Seq<Seq<Gf3258PairRelation>> {
        Seq::new(self.rows@.len(), |x: int| self.rows@[x]@)
    }
}

impl Gf3258PairRelationTable {
    /// A table without edges.
    pub fn new(sample_capacity: usize) -> (table: Self)
        ensures
            is_triangular(table@),
            table@.len() == sample_capacity,
            forall|x: int, y: int|
                0 <= y < x < sample_capacity ==> #[trigger] table@[x][y] == absent_relation(),
    {
        let mut rows: Vec<Vec<Gf3258PairRelation>> = Vec::with_capacity(sample_capacity);
        for x in 0..sample_capacity
            invariant
                rows@.len() == x,
                forall|i: int| 0 <= i < x ==> (#[trigger] rows@[i])@.len() == i,
                forall|i: int, j: int|
                    0 <= j < i < x ==> #[trigger] rows@[i]@[j] == absent_relation(),
        {
            let mut row: Vec<Gf3258PairRelation> = Vec::with_capacity(x);
            for y in 0..x
                invariant
                    row@.len() == y,
                    forall|j: int| 0 <= j < y ==> #[trigger] row@[j] == absent_relation(),
            {
                row.push(
                    Gf3258PairRelation {
                        relation_value: -1,
                        transform_higher_to_lower: Gf3258AffineQ8::identity(),
                    },
                );
            }
            rows.push(row);
        }
        Gf3258PairRelationTable { rows }
    }

    /// Stores the record of a pair, and says whether there is one.
    pub fn set_canonical_record(
        &mut self,
        first: usize,
        second: usize,
        record: Gf3258PairRelation,
    ) -> (stored: bool)
        requires
            is_triangular(old(self)@),
        ensures
            is_triangular(final(self)@),
            final(self)@ == with_record(old(self)@, first as int, second as int, record),
            stored == (table_record(old(self)@, first as int, second as int) is Some),
    {
        let ghost before = self@;
        if first == second || first >= self.rows.len() || second >= self.rows.len() {
            return false;
        }
        let (high, low): (usize, usize) = if first > second {
            (first, second)
        } else {
            (second, first)
        };
        assert(before[high as int].len() == high);
        self.rows[high][low] = record;
        proof {
            let after = with_record(before, first as int, second as int, record);
            assert forall|x: int| 0 <= x < after.len() implies self@[x] == after[x] by {
                assert(before[x] == old(self).rows@[x]@);
            }
            assert(self@ =~= after);
            assert forall|x: int| 0 <= x < self@.len() implies (#[trigger] self@[x]).len() == x by {
                assert(before[x].len() == x);
            }
        }
        true
    }

    /// The record of a pair.
    pub fn canonical_record(&self, first: usize, second: usize) -> (record: Option<
        Gf3258PairRelation,
    >)
        requires
            is_triangular(self@),
        ensures
            record == table_record(self@, first as int, second as int),
    {
        if first == second || first >= self.rows.len() || second >= self.rows.len() {
            return None;
        }
        let (high, low): (usize, usize) = if first > second {
            (first, second)
        } else {
            (second, first)
        };
        assert(self@[high as int].len() == high);
        Some(self.rows[high][low])
    }
}

/// Arithmetic on transforms that the enrollment graph is built on: the inverse
/// of a transform, the normalized composition `outer after inner`, and the novel
/// coverage of a packed validity mask under transforms to other samples.
pub struct Gf3258TransformOps<I, C, N> {
    pub inverse: I,
    pub compose: C,
    pub novelty: N,
}

/// What `inverse` returns.
pub open spec fn inverse_of<I: Fn(Gf3258AffineQ8) -> Gf3258AffineQ8>(
    inverse: I,
    t: Gf3258AffineQ8,
) -> Gf3258AffineQ8 {
    choose|r: Gf3258AffineQ8| call_ensures(inverse, (t,), r)
}

/// What `compose` returns.
pub open spec fn composition_of<C: Fn(Gf3258AffineQ8, Gf3258AffineQ8) -> Gf3258AffineQ8>(
    compose: C,
    outer: Gf3258AffineQ8,
    inner: Gf3258AffineQ8,
) -> Gf3258AffineQ8 {
    choose|r: Gf3258AffineQ8| call_ensures(compose, (outer, inner), r)
}

/// `novelty` may return `r` for the given mask and transforms.
pub open spec fn novelty_returns<N: Fn(&[u8; 160], &[Gf3258AffineQ8]) -> i32>(
    novelty: N,
    mask: [u8; 160],
    transforms: Seq<Gf3258AffineQ8>,
    r: i32,
) -> bool {
    exists|list: &[Gf3258AffineQ8]|
        list@ == transforms && #[trigger] call_ensures(novelty, (&mask, list), r)
}

/// What `novelty` returns.
pub open spec fn novelty_of<N: Fn(&[u8; 160], &[Gf3258AffineQ8]) -> i32>(
    novelty: N,
    mask: [u8; 160],
    transforms: Seq<Gf3258AffineQ8>,
) -> i32 {
    choose|r: i32| novelty_returns(novelty, mask, transforms, r)
}

impl<I, C, N> Gf3258TransformOps<I, C, N> where
    I: Fn(Gf3258AffineQ8) -> Gf3258AffineQ8,
    C: Fn(Gf3258AffineQ8, Gf3258AffineQ8) -> Gf3258AffineQ8,
    N: Fn(&[u8; 160], &[Gf3258AffineQ8]) -> i32,
 {
    /// The operations accept every argument, and equal arguments give equal
    /// results.
    pub open spec fn deterministic(&self) -> bool {
        &&& forall|t: Gf3258AffineQ8| #[trigger] call_requires(self.inverse, (t,))
        &&& forall|t: Gf3258AffineQ8, r: Gf3258AffineQ8| #[trigger]
            call_ensures(self.inverse, (t,), r) ==> r == inverse_of(self.inverse, t)
        &&& forall|s: Gf3258AffineQ8, t: Gf3258AffineQ8| #[trigger]
            call_requires(self.compose, (s, t))
        &&& forall|s: Gf3258AffineQ8, t: Gf3258AffineQ8, r: Gf3258AffineQ8| #[trigger]
            call_ensures(self.compose, (s, t), r) ==> r == composition_of(self.compose, s, t)
        &&& forall|mask: &[u8; 160], list: &[Gf3258AffineQ8]| #[trigger]
            call_requires(self.novelty, (mask, list))
        &&& forall|
            mask: &[u8; 160],
            list: &[Gf3258AffineQ8],
            r: i32,
            other_mask: &[u8; 160],
            other_list: &[Gf3258AffineQ8],
            other: i32,
        |
            *mask == *other_mask && list@ == other_list@ && #[trigger] call_ensures(
                self.novelty,
                (mask, list),
                r,
            ) && #[trigger] call_ensures(self.novelty, (other_mask, other_list), other) ==> r
                == other
    }

    pub open spec fn inverse_spec(&self, t: Gf3258AffineQ8) -> Gf3258AffineQ8 {
        inverse_of(self.inverse, t)
    }

    pub open spec fn compose_spec(
        &self,
        outer: Gf3258AffineQ8,
        inner: Gf3258AffineQ8,
    ) -> Gf3258AffineQ8 {
        composition_of(self.compose, outer, inner)
    }

    pub open spec fn novelty_spec(&self, mask: [u8; 160], transforms: Seq<Gf3258AffineQ8>) -> i32 {
        novelty_of(self.novelty, mask, transforms)
    }

    pub fn inverted(&self, t: Gf3258AffineQ8) -> (r: Gf3258AffineQ8)
        requires
            self.deterministic(),
        ensures
            r == self.inverse_spec(t),
    {
        (self.inverse)(t)
    }

    pub fn composed(&self, outer: Gf3258AffineQ8, inner: Gf3258AffineQ8) -> (r: Gf3258AffineQ8)
        requires
            self.deterministic(),
        ensures
            r == self.compose_spec(outer, inner),
    {
        (self.compose)(outer, inner)
    }

    pub fn novel_coverage(&self, mask: &[u8; 160], transforms: &Vec<Gf3258AffineQ8>) -> (r: i32)
        requires
            self.deterministic(),
        ensures
            r == self.novelty_spec(*mask, transforms@),
    {
        let list: &[Gf3258AffineQ8] = transforms.as_slice();
        let r: i32 = (self.novelty)(mask, list);
        assert(novelty_returns(self.novelty, *mask, transforms@, r));
        r
    }
}

/// A point as the registration of two samples sees it.
#[derive(Debug, Clone, Copy, PartialEq, Eq)]
pub struct Gf3258RegistrationPoint {
    pub x_q8: u16,
    pub y_q8: u16,
    pub descriptor_192: [u8; 24],
}

impl Gf3258RegistrationPoint {
    /// Position of a feature point and the first 24 bytes of its descriptor.
    pub fn from_feature_components(
        core: &Gf3258FeaturePointCore,
        compact: &Gf3258CompactDescriptor,
    ) -> (point: Self)
        ensures
            point.x_q8 == core.x_q8,
            point.y_q8 == core.y_q8,
            point.descriptor_192@ == compact.point_bytes().take(24),
    {
        let stored: [u8; 32] = compact.feature_point_bytes_10_2f();
        let mut descriptor_192: [u8; 24] = [0u8;24];
        for i in 0..24usize
            invariant
                forall|j: int| 0 <= j < i ==> descriptor_192@[j] == stored@[j],
        {
            descriptor_192[i] = stored[i];
        }
        assert(descriptor_192@ =~= stored@.take(24));
        Gf3258RegistrationPoint { x_q8: core.x_q8, y_q8: core.y_q8, descriptor_192 }
    }
}

/// Map scores of two samples under a transform.
#[derive(Debug, Clone, Copy, PartialEq, Eq)]
pub struct Gf3258RegistrationMapScores {
    /// What the enrollment graph goes by.
    pub score: i32,
    /// What the acceptance of a pair goes by.
    pub metric_a: i32,
    pub metric_b: i32,
}

/// Outcome of registering the points of one sample against another's.
#[derive(Debug, Clone, Copy, PartialEq, Eq)]
pub struct Gf3258PointRegistration {
    pub correspondence_count: usize,
    pub inlier_count: usize,
    pub transform: Gf3258AffineQ8,
}

pub const GF3258_REGISTRATION_WIDTH: usize = 40;

pub const GF3258_REGISTRATION_HEIGHT: usize = 32;

/// Cells of a registration map.
pub const GF3258_REGISTRATION_PIXELS: usize = 1280;

/// Cells of the 20x16 quarter-resolution validity grid.
pub const GF3258_QUARTER_VALIDITY_CELLS: usize = 320;

/// Only zeros and ones.
pub open spec fn is_binary(cells: Seq<u8>) -> bool {
    forall|i: int| 0 <= i < cells.len() ==> (#[trigger] cells[i]) <= 1
}

/// Eight binary cells in a byte, the first one in the least significant bit.
pub open spec fn packed_byte(cells: Seq<u8>, k: int) -> u8 {
    (cells[8 * k] + 2 * cells[8 * k + 1] + 4 * cells[8 * k + 2] + 8 * cells[8 * k + 3] + 16
        * cells[8 * k + 4] + 32 * cells[8 * k + 5] + 64 * cells[8 * k + 6] + 128 * cells[8 * k
        + 7]) as u8
}

/// Binary cells, eight to a byte.
pub open spec fn packed_cells(cells: Seq<u8>, bytes: nat) -> Seq<u8> {
    Seq::new(bytes, |k: int| packed_byte(cells, k))
}

fn pack_byte(cells: &[u8], k: usize) -> (byte: u8)
    requires
        k < 160,
        8 * k + 8 <= cells@.len(),
        is_binary(cells@),
    ensures
        byte == packed_byte(cells@, k as int),
{
    let at: usize = 8 * k;
    proof {
        assert(cells@[at as int] <= 1 && cells@[at + 1] <= 1 && cells@[at + 2] <= 1 && cells@[at
            + 3] <= 1 && cells@[at + 4] <= 1 && cells@[at + 5] <= 1 && cells@[at + 6] <= 1
            && cells@[at + 7] <= 1);
    }
    cells[at] + 2 * cells[at + 1] + 4 * cells[at + 2] + 8 * cells[at + 3] + 16 * cells[at + 4] + 32
        * cells[at + 5] + 64 * cells[at + 6] + 128 * cells[at + 7]
}

/// Packs a quarter-resolution validity grid.
pub fn gf3258_pack_quarter_validity(cells: &[u8; 320]) -> (packed: [u8; 40])
    requires
        is_binary(cells@),
    ensures
        packed@ == packed_cells(cells@, 40),
{
    let mut packed: [u8; 40] = [0u8;40];
    for k in 0..40usize
        invariant
            is_binary(cells@),
            forall|j: int| 0 <= j < k ==> packed@[j] == packed_byte(cells@, j),
    {
        packed[k] = pack_byte(cells.as_slice(), k);
    }
    assert(packed@ =~= packed_cells(cells@, 40));
    packed
}

/// Packs a validity map.
pub fn gf3258_pack_active_validity(cells: &[u8; 1280]) -> (packed: [u8; 160])
    requires
        is_binary(cells@),
    ensures
        packed@ == packed_cells(cells@, 160),
{
    let mut packed: [u8; 160] = [0u8;160];
    for k in 0..160usize
        invariant
            is_binary(cells@),
            forall|j: int| 0 <= j < k ==> packed@[j] == packed_byte(cells@, j),
    {
        packed[k] = pack_byte(cells.as_slice(), k);
    }
    assert(packed@ =~= packed_cells(cells@, 160));
    packed
}

/// The 40x32 map in which every cell of the 20x16 grid covers two by two cells.
pub open spec fn expanded_quarter(cells: Seq<u8>) -> Seq<u8> {
    Seq::new(
        GF3258_REGISTRATION_PIXELS as nat,
        |i: int| cells[(i / 80) * 20 + (i % 40) / 2],
    )
}

/// Expands a quarter-resolution validity grid.
pub fn gf3258_expand_quarter_validity(cells: &[u8; 320]) -> (expanded: [u8; 1280])
    ensures
        expanded@ == expanded_quarter(cells@),
        is_binary(cells@) ==> is_binary(expanded@),
{
    let mut expanded: [u8; 1280] = [0u8;1280];
    for i in 0..1280usize
        invariant
            forall|j: int| 0 <= j < i ==> expanded@[j] == cells@[(j / 80) * 20 + (j % 40) / 2],
    {
        expanded[i] = cells[(i / 80) * 20 + (i % 40) / 2];
    }
    assert(expanded@ =~= expanded_quarter(cells@));
    expanded
}

/// The classification maps of a sample: the primary and the low-threshold map of
/// the detector image, and the secondary map of the gradient image under a mask.
pub struct Gf3258MapOps<P, S, L> {
    pub primary: P,
    pub secondary: S,
    pub low_threshold: L,
}

/// `map` may return `r` for an image.
pub open spec fn map_returns<P: Fn(&[u8]) -> [u8; 160]>(
    map: P,
    image: Seq<u8>,
    r: [u8; 160],
) -> bool {
    exists|a: &[u8]| a@ == image && #[trigger] call_ensures(map, (a,), r)
}

/// `map` may return `r` for an image and a mask.
pub open spec fn masked_map_returns<S: Fn(&[u8], &[u8]) -> [u8; 160]>(
    map: S,
    image: Seq<u8>,
    mask: Seq<u8>,
    r: [u8; 160],
) -> bool {
    exists|a: &[u8], b: &[u8]|
        a@ == image && b@ == mask && #[trigger] call_ensures(map, (a, b), r)
}

impl<P, S, L> Gf3258MapOps<P, S, L> where
    P: Fn(&[u8]) -> [u8; 160],
    S: Fn(&[u8], &[u8]) -> [u8; 160],
    L: Fn(&[u8]) -> [u8; 160],
 {
    pub open spec fn primary_spec(&self, image: Seq<u8>) -> [u8; 160] {
        choose|r: [u8; 160]| map_returns(self.primary, image, r)
    }

    pub open spec fn low_threshold_spec(&self, image: Seq<u8>) -> [u8; 160] {
        choose|r: [u8; 160]| map_returns(self.low_threshold, image, r)
    }

    pub open spec fn secondary_spec(&self, image: Seq<u8>, mask: Seq<u8>) -> [u8; 160] {
        choose|r: [u8; 160]| masked_map_returns(self.secondary, image, mask, r)
    }

    /// The maps are made of every image, and equal images give equal maps.
    pub open spec fn deterministic(&self) -> bool {
        &&& forall|a: &[u8]| #[trigger] call_requires(self.primary, (a,))
        &&& forall|a: &[u8], r: [u8; 160], b: &[u8], other: [u8; 160]|
            a@ == b@ && #[trigger] call_ensures(self.primary, (a,), r)
                && #[trigger] call_ensures(self.primary, (b,), other) ==> r =~= other
        &&& forall|a: &[u8]| #[trigger] call_requires(self.low_threshold, (a,))
        &&& forall|a: &[u8], r: [u8; 160], b: &[u8], other: [u8; 160]|
            a@ == b@ && #[trigger] call_ensures(self.low_threshold, (a,), r)
                && #[trigger] call_ensures(self.low_threshold, (b,), other) ==> r =~= other
        &&& forall|a: &[u8], b: &[u8]| #[trigger] call_requires(self.secondary, (a, b))
        &&& forall|
            a: &[u8],
            b: &[u8],
            r: [u8; 160],
            c: &[u8],
            d: &[u8],
            other: [u8; 160],
        |
            a@ == c@ && b@ == d@ && #[trigger] call_ensures(self.secondary, (a, b), r)
                && #[trigger] call_ensures(self.secondary, (c, d), other) ==> r =~= other
    }

    pub fn primary_map(&self, image: &[u8]) -> (map: [u8; 160])
        requires
            self.deterministic(),
        ensures
            map == self.primary_spec(image@),
    {
        let map: [u8; 160] = (self.primary)(image);
        assert(map_returns(self.primary, image@, map));
        map
    }

    pub fn low_threshold_map(&self, image: &[u8]) -> (map: [u8; 160])
        requires
            self.deterministic(),
        ensures
            map == self.low_threshold_spec(image@),
    {
        let map: [u8; 160] = (self.low_threshold)(image);
        assert(map_returns(self.low_threshold, image@, map));
        map
    }

    pub fn secondary_map(&self, image: &[u8], mask: &[u8]) -> (map: [u8; 160])
        requires
            self.deterministic(),
        ensures
            map == self.secondary_spec(image@, mask@),
    {
        let map: [u8; 160] = (self.secondary)(image, mask);
        assert(masked_map_returns(self.secondary, image@, mask@, map));
        map
    }
}

} // verus!
