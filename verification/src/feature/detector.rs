//! GF3258 difference-of-Gaussians detection and fixed-point extremum refinement:
//! the Gaussian pyramid, the 3x3x3 extrema scan, the guarded Q12 Hessian solve,
//! the relocation policy, the contrast gate and the scale conversion.
use vstd::prelude::*;

use crate::arith;
use crate::feature::filter;
use crate::feature::{FeatureError, GF3258_HEIGHT, GF3258_PIXELS, GF3258_WIDTH};

verus! {

pub const GF3258_PYRAMID_LEVELS: usize = 9;

pub const GF3258_DOG_LEVELS: usize = 8;

/// Responses whose magnitude does not exceed this value are never extrema.
pub const GF3258_DOG_CONTRAST_THRESHOLD: i32 = 0x148;

/// Pixels closer than this to the image edge are never extrema.
pub const GF3258_EXTREMA_BORDER: usize = 6;

pub const GF3258_MIN_REFINED_LEVEL: i32 = 1;

pub const GF3258_MAX_REFINED_LEVEL: i32 = 6;

/// At most this many quadratic solves are made for one raw extremum.
pub const GF3258_MAX_REFINEMENT_ITERS: usize = 5;

/// Q12 offsets within this magnitude are settled; half a sample is not.
pub const GF3258_SETTLED_Q12: i32 = 0x7ff;

/// Least magnitude of an accepted interpolated response.
pub const GF3258_INTERPOLATED_CONTRAST_MIN: i64 = 0x0147_8000;

/// Offset reported when the numerator is far wider than the determinant.
pub const GF3258_INVALID_OFFSET_Q12: i32 = 0x00ff_ffff;

pub const GAUSS_300: [i32; 7] = [291, 3539, 15862, 26152, 15862, 3539, 291];

pub const GAUSS_301: [i32; 9] = [77, 913, 5345, 15439, 21988, 15439, 5345, 913, 77];

pub const GAUSS_302: [i32; 7] = [16, 1124, 14549, 34158, 14549, 1124, 16];

pub const GAUSS_303: [i32; 7] = [126, 2569, 15710, 28726, 15710, 2569, 126];

pub const GAUSS_304: [i32; 9] = [26, 519, 4382, 15764, 24155, 15764, 4382, 519, 26];

pub const GAUSS_305: [i32; 9] = [163, 1344, 6077, 15025, 20318, 15025, 6077, 1344, 163];

pub const GAUSS_306: [i32; 11] = [82, 562, 2503, 7276, 13802, 17086, 13802, 7276, 2503, 562, 82];

pub const GAUSS_307: [i32; 13] = [
    63,
    331,
    1285,
    3695,
    7857,
    12355,
    14367,
    12355,
    7857,
    3695,
    1285,
    331,
    63,
];

pub const GAUSS_308: [i32; 15] = [
    65,
    259,
    839,
    2192,
    4625,
    7886,
    10860,
    12084,
    10860,
    7886,
    4625,
    2192,
    839,
    259,
    65,
];

/// Greedy `log2(1 + 2^-k)` thresholds in Q16 for `k` in `1..=16`.
pub const EXP2_LOG_STEPS_Q16: [i32; 16] = [
    0x95c0,
    0x526a,
    0x2b80,
    0x1664,
    0x0b5d,
    0x05ba,
    0x02e0,
    0x0171,
    0x00b8,
    0x005c,
    0x002e,
    0x0017,
    0x000c,
    0x0006,
    0x0003,
    0x0001,
];

/// A thresholded local extremum of the difference-of-Gaussians stack.
#[derive(Debug, Clone, Copy, PartialEq, Eq)]
pub struct RawExtremum {
    pub dog_level: u8,
    pub x: u16,
    pub y: u16,
    pub response: i32,
}

/// An extremum that passed the refinement.
#[derive(Debug, Clone, Copy, PartialEq, Eq)]
pub struct RefinedExtremum {
    pub ordinal: usize,
    pub raw: RawExtremum,
    /// Integer sample selected after zero to four relocations.
    pub x: usize,
    pub y: usize,
    pub dog_level: u8,
    /// Final settled sub-sample offsets.
    pub dx_q12: i32,
    pub dy_q12: i32,
    pub ds_q12: i32,
    pub x_q8: u16,
    pub y_q8: u16,
    pub response: i32,
    pub spatial_det: i64,
    pub scale_q16: i32,
    pub iterations: u8,
}

/// An extremum that did not pass the refinement, with its unrefined geometry.
#[derive(Debug, Clone, Copy, PartialEq, Eq)]
pub struct FallbackExtremum {
    pub ordinal: usize,
    pub raw: RawExtremum,
    pub failure: RefinementFailure,
    pub x_q8: u16,
    pub y_q8: u16,
    pub scale_q16: i32,
}

#[derive(Debug, Clone, Copy, PartialEq, Eq)]
pub enum RefinementOutcome {
    Accepted(RefinedExtremum),
    Fallback(FallbackExtremum),
}

#[derive(Debug, Clone, Copy, PartialEq, Eq, PartialOrd, Ord)]
pub enum RefinementFailure {
    FirstDerivativeOverflow,
    SecondDerivativeOverflow,
    MixedDerivativeOverflow,
    RelocationOutOfBounds,
    IterationLimit,
    InterpolatedContrast,
    SpatialHessian,
}

impl RefinementFailure {
    /// The failure's stable name.
    pub open spec fn name(self) -> &'static str {
        match self {
            RefinementFailure::FirstDerivativeOverflow => "first_derivative_overflow",
            RefinementFailure::SecondDerivativeOverflow => "second_derivative_overflow",
            RefinementFailure::MixedDerivativeOverflow => "mixed_derivative_overflow",
            RefinementFailure::RelocationOutOfBounds => "relocation_out_of_bounds",
            RefinementFailure::IterationLimit => "iteration_limit",
            RefinementFailure::InterpolatedContrast => "interpolated_contrast",
            RefinementFailure::SpatialHessian => "spatial_hessian",
        }
    }

    pub fn as_str(self) -> (name: &'static str)
        ensures
            name == self.name(),
    {
        match self {
            RefinementFailure::FirstDerivativeOverflow => "first_derivative_overflow",
            RefinementFailure::SecondDerivativeOverflow => "second_derivative_overflow",
            RefinementFailure::MixedDerivativeOverflow => "mixed_derivative_overflow",
            RefinementFailure::RelocationOutOfBounds => "relocation_out_of_bounds",
            RefinementFailure::IterationLimit => "iteration_limit",
            RefinementFailure::InterpolatedContrast => "interpolated_contrast",
            RefinementFailure::SpatialHessian => "spatial_hessian",
        }
    }
}

/// The byte image scaled to 16 bits.
pub open spec fn widened_image(image: Seq<u8>) -> Seq<u16> {
    Seq::new(image.len(), |i: int| (image[i] * 256) as u16)
}

/// Scales a byte image to 16 bits.
pub fn widen_image(image: &[u8]) -> (out: Vec<u16>)
    ensures
        out@ == widened_image(image@),
{
    let mut out: Vec<u16> = Vec::with_capacity(image.len());
    for i in 0..image.len()
        invariant
            out@.len() == i,
            forall|j: int| 0 <= j < i ==> out@[j] == widened_image(image@)[j],
    {
        out.push(image[i] as u16 * 256);
    }
    out
}

/// The kernel that produces pyramid level `k`.
pub open spec fn pyramid_kernel(k: int) -> Seq<i32> {
    if k == 0 {
        GAUSS_300@
    } else if k == 1 {
        GAUSS_301@
    } else if k == 2 {
        GAUSS_302@
    } else if k == 3 {
        GAUSS_303@
    } else if k == 4 {
        GAUSS_304@
    } else if k == 5 {
        GAUSS_305@
    } else if k == 6 {
        GAUSS_306@
    } else if k == 7 {
        GAUSS_307@
    } else {
        GAUSS_308@
    }
}

/// Pyramid level `k`: levels zero and one filter the source itself, every later
/// level filters the one before it.
pub open spec fn pyramid_level(image: Seq<u8>, k: int) -> Seq<u16>
    decreases k,
{
    if k <= 1 {
        filter::separable_q16_spec(widened_image(image), pyramid_kernel(k))
    } else {
        filter::separable_q16_spec(pyramid_level(image, k - 1), pyramid_kernel(k))
    }
}

/// The nine pyramid levels of an image.
pub open spec fn pyramid(image: Seq<u8>) -> Seq<Seq<u16>> {
    Seq::new(GF3258_PYRAMID_LEVELS as nat, |k: int| pyramid_level(image, k))
}

/// The detector response at scale `s` and pixel `(x, y)`.
pub open spec fn dog(p: Seq<Seq<u16>>, s: int, x: int, y: int) -> int {
    p[s + 1][y * GF3258_WIDTH + x] - p[s][y * GF3258_WIDTH + x]
}

/// A stack of nine full-size levels.
pub open spec fn is_pyramid(p: Seq<Seq<u16>>) -> bool {
    &&& p.len() == GF3258_PYRAMID_LEVELS
    &&& forall|k: int| 0 <= k < GF3258_PYRAMID_LEVELS ==> (#[trigger] p[k]).len() == GF3258_PIXELS
}

/// The response as the 16-bit comparison stage sees it.
pub open spec fn compared_response(p: Seq<Seq<u16>>, s: int, x: int, y: int) -> int {
    (dog(p, s, x, y) as i16) as int
}

/// `value` is on the far side of `center`: not below it where `center` is to be a
/// minimum, and not above it otherwise.
pub open spec fn is_beyond(minimum: bool, value: int, center: int) -> bool {
    if minimum {
        value >= center
    } else {
        value <= center
    }
}

/// `(xx, yy)` at scale `s` and its two scale neighbours lie on the far side of
/// `center`; the centre itself is not compared with itself.
pub open spec fn neighbor_beyond(
    p: Seq<Seq<u16>>,
    s: int,
    x: int,
    y: int,
    minimum: bool,
    center: int,
    xx: int,
    yy: int,
) -> bool {
    &&& is_beyond(minimum, dog(p, s - 1, xx, yy), center)
    &&& is_beyond(minimum, dog(p, s + 1, xx, yy), center)
    &&& (xx != x || yy != y) ==> is_beyond(minimum, dog(p, s, xx, yy), center)
}

/// The 26 neighbours of `(x, y, s)` all lie on the far side of `center`.
pub open spec fn neighborhood_beyond(
    p: Seq<Seq<u16>>,
    s: int,
    x: int,
    y: int,
    minimum: bool,
    center: int,
) -> bool {
    forall|xx: int, yy: int|
        x - 1 <= xx <= x + 1 && y - 1 <= yy <= y + 1 ==> #[trigger] neighbor_beyond(
            p,
            s,
            x,
            y,
            minimum,
            center,
            xx,
            yy,
        )
}

/// The response at `(x, y, s)` is extreme among its neighbours: a negative one is
/// a minimum, any other a maximum.
pub open spec fn is_neighborhood_extreme(p: Seq<Seq<u16>>, s: int, x: int, y: int) -> bool {
    let center = compared_response(p, s, x, y);
    neighborhood_beyond(p, s, x, y, center < 0, center)
}

/// The response at `(x, y, s)` is strong enough and extreme among its neighbours.
pub open spec fn is_raw_extremum(p: Seq<Seq<u16>>, s: int, x: int, y: int) -> bool {
    &&& arith::abs(compared_response(p, s, x, y)) > GF3258_DOG_CONTRAST_THRESHOLD
    &&& is_neighborhood_extreme(p, s, x, y)
}

/// Positions scanned at one scale: 52 rows of 68 columns.
pub const SCAN_COLUMNS: usize = 68;

pub const SCAN_POSITIONS: usize = 3536;

/// The scan visits scales six down to one, each in raster order.
pub open spec fn scan_level(n: int) -> int {
    6 - n / SCAN_POSITIONS as int
}

pub open spec fn scan_x(n: int) -> int {
    GF3258_EXTREMA_BORDER + (n % SCAN_POSITIONS as int) % SCAN_COLUMNS as int
}

pub open spec fn scan_y(n: int) -> int {
    GF3258_EXTREMA_BORDER + (n % SCAN_POSITIONS as int) / SCAN_COLUMNS as int
}

/// The raw extrema among the first `n` scan positions, in scan order.
pub open spec fn raw_extrema_prefix(p: Seq<Seq<u16>>, n: nat) -> Seq<RawExtremum>
    decreases n,
{
    if n == 0 {
        Seq::empty()
    } else {
        let before = raw_extrema_prefix(p, (n - 1) as nat);
        let s = scan_level(n - 1);
        let x = scan_x(n - 1);
        let y = scan_y(n - 1);
        if is_raw_extremum(p, s, x, y) {
            before.push(
                RawExtremum {
                    dog_level: s as u8,
                    x: x as u16,
                    y: y as u16,
                    response: compared_response(p, s, x, y) as i32,
                },
            )
        } else {
            before
        }
    }
}

/// Every raw extremum of a pyramid, in scan order.
pub open spec fn raw_extrema_spec(p: Seq<Seq<u16>>) -> Seq<RawExtremum> {
    raw_extrema_prefix(p, (6 * SCAN_POSITIONS) as nat)
}

/// Difference `s` at pixel `(x, y)`.
pub open spec fn difference_at(d: Seq<Seq<i32>>, s: int, x: int, y: int) -> int {
    d[s][y * 80 + x] as int
}

/// No neighbour of `(x, y)` in the differences `s - 1`, `s` and `s + 1` is below
/// `value`; the sample itself is not asked.
pub open spec fn is_least_around(d: Seq<Seq<i32>>, s: int, x: int, y: int, value: int) -> bool {
    forall|ss: int, xx: int, yy: int|
        s - 1 <= ss <= s + 1 && x - 1 <= xx <= x + 1 && y - 1 <= yy <= y + 1 && !(ss == s && xx == x
            && yy == y) ==> #[trigger] difference_at(d, ss, xx, yy) >= value
}

/// No neighbour is above `value`.
pub open spec fn is_greatest_around(d: Seq<Seq<i32>>, s: int, x: int, y: int, value: int) -> bool {
    forall|ss: int, xx: int, yy: int|
        s - 1 <= ss <= s + 1 && x - 1 <= xx <= x + 1 && y - 1 <= yy <= y + 1 && !(ss == s && xx == x
            && yy == y) ==> #[trigger] difference_at(d, ss, xx, yy) <= value
}

/// A position that is looked at: an inner difference, and six pixels of border.
pub open spec fn is_searched(s: int, x: int, y: int) -> bool {
    1 <= s <= 6 && 6 <= x < 74 && 6 <= y < 58
}

/// `e` is a strong minimum or maximum of the differences, with its response.
pub open spec fn is_strong_extremum(d: Seq<Seq<i32>>, e: RawExtremum) -> bool {
    let s = e.dog_level as int;
    let x = e.x as int;
    let y = e.y as int;
    &&& is_searched(s, x, y)
    &&& e.response == (difference_at(d, s, x, y) as i16)
    &&& e.response < -0x148 || e.response > 0x148
    &&& e.response < 0 ==> is_least_around(d, s, x, y, e.response as int)
    &&& e.response > 0 ==> is_greatest_around(d, s, x, y, e.response as int)
}

/// `d` holds the differences of adjacent levels: what a level has over the one
/// before it.
pub open spec fn are_differences(d: Seq<Seq<i32>>, p: Seq<Seq<u16>>) -> bool {
    forall|s: int, i: int|
        0 <= s < 8 && 0 <= i < 5120 ==> #[trigger] d[s][i] == p[s + 1][i] - p[s][i]
}

/// A position is extreme among its neighbours exactly if it is a minimum, where
/// its response is negative, and a maximum otherwise.
proof fn lemma_extreme_is_least_or_greatest(
    p: Seq<Seq<u16>>,
    d: Seq<Seq<i32>>,
    s: int,
    x: int,
    y: int,
)
    requires
        are_differences(d, p),
        is_searched(s, x, y),
    ensures
        dog(p, s, x, y) == difference_at(d, s, x, y),
        is_neighborhood_extreme(p, s, x, y) == ({
            let value = compared_response(p, s, x, y);
            if value < 0 {
                is_least_around(d, s, x, y, value)
            } else {
                is_greatest_around(d, s, x, y, value)
            }
        }),
{
    let value = compared_response(p, s, x, y);
    let minimum = value < 0;
    assert forall|ss: int, xx: int, yy: int|
        s - 1 <= ss <= s + 1 && x - 1 <= xx <= x + 1 && y - 1 <= yy <= y
            + 1 implies #[trigger] difference_at(d, ss, xx, yy) == dog(p, ss, xx, yy) by {
        assert(d[ss][yy * 80 + xx] == p[ss + 1][yy * 80 + xx] - p[ss][yy * 80 + xx]);
    }
    assert(difference_at(d, s, x, y) == dog(p, s, x, y));
    if is_neighborhood_extreme(p, s, x, y) {
        assert forall|ss: int, xx: int, yy: int|
            s - 1 <= ss <= s + 1 && x - 1 <= xx <= x + 1 && y - 1 <= yy <= y + 1 && !(ss == s && xx
                == x && yy == y) implies is_beyond(
            value < 0,
            #[trigger] difference_at(d, ss, xx, yy),
            value,
        ) by {
            assert(neighbor_beyond(p, s, x, y, minimum, value, xx, yy));
        }
    }
    if if value < 0 {
        is_least_around(d, s, x, y, value)
    } else {
        is_greatest_around(d, s, x, y, value)
    } {
        assert forall|xx: int, yy: int|
            x - 1 <= xx <= x + 1 && y - 1 <= yy <= y + 1 implies #[trigger] neighbor_beyond(
            p,
            s,
            x,
            y,
            minimum,
            value,
            xx,
            yy,
        ) by {
            assert(difference_at(d, s - 1, xx, yy) == dog(p, s - 1, xx, yy));
            assert(difference_at(d, s, xx, yy) == dog(p, s, xx, yy));
            assert(difference_at(d, s + 1, xx, yy) == dog(p, s + 1, xx, yy));
        }
    }
}

/// Everything reported is a strong extremum of the differences.
proof fn lemma_reported_are_extrema(p: Seq<Seq<u16>>, d: Seq<Seq<i32>>, n: nat, k: int)
    requires
        are_differences(d, p),
        n <= 6 * SCAN_POSITIONS,
        0 <= k < raw_extrema_prefix(p, n).len(),
    ensures
        is_strong_extremum(d, raw_extrema_prefix(p, n)[k]),
    decreases n,
{
    let before = raw_extrema_prefix(p, (n - 1) as nat);
    if k < before.len() {
        lemma_reported_are_extrema(p, d, (n - 1) as nat, k);
    } else {
        lemma_extreme_is_least_or_greatest(
            p,
            d,
            scan_level(n - 1),
            scan_x(n - 1),
            scan_y(n - 1),
        );
    }
}

/// Every strong extremum among the first `n` positions is reported.
proof fn lemma_extrema_are_reported(p: Seq<Seq<u16>>, d: Seq<Seq<i32>>, n: nat, e: RawExtremum)
    requires
        are_differences(d, p),
        n <= 6 * SCAN_POSITIONS,
        is_strong_extremum(d, e),
        (6 - e.dog_level) * 3536 + (e.y - 6) * 68 + (e.x - 6) < n,
    ensures
        raw_extrema_prefix(p, n).contains(e),
    decreases n,
{
    let before = raw_extrema_prefix(p, (n - 1) as nat);
    let at = (6 - e.dog_level) * 3536 + (e.y - 6) * 68 + (e.x - 6);
    if at < n - 1 {
        lemma_extrema_are_reported(p, d, (n - 1) as nat, e);
        let k = choose|k: int| 0 <= k < before.len() && before[k] == e;
        assert(raw_extrema_prefix(p, n)[k] == e);
    } else {
        assert(scan_level(n - 1) == e.dog_level && scan_x(n - 1) == e.x && scan_y(n - 1) == e.y);
        lemma_extreme_is_least_or_greatest(
            p,
            d,
            e.dog_level as int,
            e.x as int,
            e.y as int,
        );
        assert(raw_extrema_prefix(p, n)[before.len() as int] == e);
    }
}

/// The raw extrema of a pyramid are exactly the strong extrema of its
/// differences: samples beyond the contrast threshold that are minima of their
/// neighbourhood, where they are negative, and maxima, where they are positive.
pub proof fn lemma_raw_extrema_are_the_strong_ones(
    p: Seq<Seq<u16>>,
    d: Seq<Seq<i32>>,
    e: RawExtremum,
)
    requires
        are_differences(d, p),
    ensures
        raw_extrema_spec(p).contains(e) <==> is_strong_extremum(d, e),
{
    let n = (6 * SCAN_POSITIONS) as nat;
    if raw_extrema_spec(p).contains(e) {
        let k = choose|k: int| 0 <= k < raw_extrema_spec(p).len() && raw_extrema_spec(p)[k] == e;
        lemma_reported_are_extrema(p, d, n, k);
    }
    if is_strong_extremum(d, e) {
        lemma_extrema_are_reported(p, d, n, e);
    }
}

/// Fixed-point first and second derivatives around one sample.
#[derive(Debug, Clone, Copy)]
pub struct DerivativeBlock {
    pub center_twice: i32,
    pub gx: i32,
    pub gy: i32,
    pub gs: i32,
    pub hxx: i32,
    pub hyy: i32,
    pub hss: i32,
    pub hxy: i32,
    pub hxs: i32,
    pub hys: i32,
    pub spatial_det: i64,
}

/// The value ranges that the derivative checks guarantee.
pub open spec fn derivatives_bounded(d: DerivativeBlock) -> bool {
    &&& -0x8000 <= d.center_twice <= 0x7fff
    &&& -0x7fff <= d.gx <= 0x7fff
    &&& -0x7fff <= d.gy <= 0x7fff
    &&& -0x7fff <= d.gs <= 0x7fff
    &&& -0x7fff <= d.hxx <= 0x7fff
    &&& -0x7fff <= d.hyy <= 0x7fff
    &&& -0x7fff <= d.hss <= 0x7fff
    &&& -0x1fff <= d.hxy <= 0x1fff
    &&& -0x1fff <= d.hxs <= 0x1fff
    &&& -0x1fff <= d.hys <= 0x1fff
}

/// The derivatives at `(x, y, s)`, or the first range check that they fail.
pub open spec fn derivatives_spec(p: Seq<Seq<u16>>, s: int, x: int, y: int) -> Result<
    DerivativeBlock,
    RefinementFailure,
> {
    let center_twice = ((2 * dog(p, s, x, y)) as i16) as int;
    let left = dog(p, s, x - 1, y);
    let right = dog(p, s, x + 1, y);
    let up = dog(p, s, x, y - 1);
    let down = dog(p, s, x, y + 1);
    let prev = dog(p, s - 1, x, y);
    let next = dog(p, s + 1, x, y);
    let gx = 2 * (right - left);
    let gy = 2 * (down - up);
    let gs = 2 * (next - prev);
    let hxx = 4 * (right + left - center_twice);
    let hyy = 4 * (down + up - center_twice);
    let hss = 4 * (next + prev - center_twice);
    let hxy = dog(p, s, x + 1, y + 1) - dog(p, s, x - 1, y + 1) - dog(p, s, x + 1, y - 1) + dog(
        p,
        s,
        x - 1,
        y - 1,
    );
    let hxs = dog(p, s + 1, x + 1, y) - dog(p, s + 1, x - 1, y) - dog(p, s - 1, x + 1, y) + dog(
        p,
        s - 1,
        x - 1,
        y,
    );
    let hys = dog(p, s + 1, x, y + 1) - dog(p, s + 1, x, y - 1) - dog(p, s - 1, x, y + 1) + dog(
        p,
        s - 1,
        x,
        y - 1,
    );
    if arith::abs(gx) > 0x7fff || arith::abs(gy) > 0x7fff || arith::abs(gs) > 0x7fff {
        Err(RefinementFailure::FirstDerivativeOverflow)
    } else if arith::abs(hxx) > 0x7fff || arith::abs(hyy) > 0x7fff || arith::abs(hss) > 0x7fff {
        Err(RefinementFailure::SecondDerivativeOverflow)
    } else if arith::abs(hxy) > 0x1fff || arith::abs(hxs) > 0x1fff || arith::abs(hys) > 0x1fff {
        Err(RefinementFailure::MixedDerivativeOverflow)
    } else {
        Ok(
            DerivativeBlock {
                center_twice: center_twice as i32,
                gx: gx as i32,
                gy: gy as i32,
                gs: gs as i32,
                hxx: hxx as i32,
                hyy: hyy as i32,
                hss: hss as i32,
                hxy: hxy as i32,
                hxs: hxs as i32,
                hys: hys as i32,
                spatial_det: (hyy * hxx - hxy * hxy) as i64,
            },
        )
    }
}

/// Number of binary digits of a magnitude.
pub open spec fn bit_length(magnitude: nat) -> nat
    decreases magnitude,
{
    if magnitude == 0 {
        0
    } else {
        1 + bit_length(magnitude / 2)
    }
}

/// Both operands of the guarded division are shifted right by this amount, so
/// that the wider one keeps at most 31 binary digits.
pub open spec fn guard_shift(numerator: int, determinant: int) -> int {
    let n = bit_length(arith::abs(numerator) as nat) + 1;
    let d = bit_length(arith::abs(determinant) as nat) + 1;
    if n > 32 && n >= d {
        n - 32
    } else if n < d && d > 32 {
        d - 32
    } else {
        0
    }
}

/// Signed Q12 quotient, or the invalid offset where the numerator is more than
/// eight binary digits wider than the determinant.
pub open spec fn guarded_q12_div_spec(numerator: i64, determinant: i64) -> i32 {
    let n = bit_length(arith::abs(numerator as int) as nat);
    let d = bit_length(arith::abs(determinant as int) as nat);
    if n - d > 8 {
        GF3258_INVALID_OFFSET_Q12
    } else {
        let unit = vstd::arithmetic::power2::pow2(
            guard_shift(numerator as int, determinant as int) as nat,
        ) as int;
        arith::trunc_div((numerator as int / unit) * 4096, determinant as int / unit) as i32
    }
}

/// Sub-sample displacement in Q12.
#[derive(Debug, Clone, Copy)]
pub struct Q12Offsets {
    pub dx: i32,
    pub dy: i32,
    pub ds: i32,
}

/// The displacement `-adj(H) g / det H`; zero where the Hessian is singular.
pub open spec fn q12_offsets_spec(d: DerivativeBlock) -> Q12Offsets {
    let c00 = d.hyy * d.hss - d.hys * d.hys;
    let c01 = d.hys * d.hxs - d.hss * d.hxy;
    let c02 = d.hys * d.hxy - d.hyy * d.hxs;
    let c11 = d.hxx * d.hss - d.hxs * d.hxs;
    let c12 = d.hxs * d.hxy - d.hxx * d.hys;
    let c22 = d.hyy * d.hxx - d.hxy * d.hxy;
    let det = d.hxs * c02 + d.hxy * c01 + d.hxx * c00;
    if det == 0 {
        Q12Offsets { dx: 0, dy: 0, ds: 0 }
    } else {
        Q12Offsets {
            dx: guarded_q12_div_spec((-c00 * d.gx - c01 * d.gy - c02 * d.gs) as i64, det as i64),
            dy: guarded_q12_div_spec((-c01 * d.gx - c11 * d.gy - c12 * d.gs) as i64, det as i64),
            ds: guarded_q12_div_spec((-c02 * d.gx - c12 * d.gy - c22 * d.gs) as i64, det as i64),
        }
    }
}

pub open spec fn is_settled(value: int) -> bool {
    -GF3258_SETTLED_Q12 <= value <= GF3258_SETTLED_Q12
}

/// Relocation in whole samples. The magnitude of the most negative value does
/// not exist in 32 bits, so that value keeps its sign before it is halved away.
pub open spec fn q12_round_spec(value: i32) -> int {
    if value < 0 {
        let magnitude: int = if value == i32::MIN {
            value as int
        } else {
            -value
        };
        -(magnitude / 4096 + (magnitude / 2048) % 2)
    } else {
        value as int / 4096 + (value as int / 2048) % 2
    }
}

/// Relocation rounds to the nearest sample, halves away from zero.
pub proof fn lemma_q12_round_is_nearest(value: i32)
    requires
        value > i32::MIN,
    ensures
        value >= 0 ==> q12_round_spec(value) == (value + 2048) / 4096,
        value < 0 ==> q12_round_spec(value) == -((-value + 2048) / 4096),
{
}

/// Greedy product of the factors `1 + 2^-(index + 1)` whose logarithms fit into
/// the remaining fraction.
pub open spec fn exp2_greedy(value: int, fraction: int, index: int) -> int
    decreases 16 - index,
{
    if index >= 16 {
        value
    } else if fraction >= EXP2_LOG_STEPS_Q16@[index] {
        exp2_greedy(
            value + value / vstd::arithmetic::power2::pow2((index + 1) as nat) as int,
            fraction - EXP2_LOG_STEPS_Q16@[index],
            index + 1,
        )
    } else {
        exp2_greedy(value, fraction, index + 1)
    }
}

/// Magnitude of a Q16 exponent; the most negative value has none and stands for
/// an exponent without integer part or fraction.
pub open spec fn exponent_magnitude(x_q16: i32) -> int {
    if x_q16 == i32::MIN {
        0
    } else {
        arith::abs(x_q16 as int)
    }
}

/// Approximate `2^|x|` in Q16: the integer power is applied before the factors.
pub open spec fn exp2_magnitude(x_q16: i32) -> int {
    let m = exponent_magnitude(x_q16);
    exp2_greedy(vstd::arithmetic::power2::pow2((16 + m / 65536) as nat) as int, m % 65536, 0)
}

/// The power can be formed in 64 bits. Beyond that its leading bit is shifted
/// out, which no fraction and no reciprocal may meet.
pub open spec fn exp2_defined(x_q16: i32) -> bool {
    let m = exponent_magnitude(x_q16);
    ||| m / 65536 <= 46
    ||| m / 65536 == 47 && m % 65536 == 0
    ||| 47 < m / 65536 <= 63 && x_q16 > 0
}

/// Approximate `2^x` in Q16, kept in 32 bits; zero and negative exponents take
/// the reciprocal. Nothing is left of a power that is too large.
pub open spec fn exp2_q16_spec(x_q16: i32) -> i32 {
    if exponent_magnitude(x_q16) / 65536 > 46 {
        0
    } else if x_q16 > 0 {
        exp2_magnitude(x_q16) as i32
    } else {
        (0x1_0000_0000int / exp2_magnitude(x_q16)) as i32
    }
}

/// Scale of an unrefined extremum: `1.2 * 2^(level / 6)` in Q16.
pub open spec fn fallback_scale_spec(level: u8) -> i32 {
    let base = exp2_q16_spec(((level as int * 65536) / 6) as i32);
    (((base as u32) as int * 0x13333) / 65536) as i32
}

/// Interpolated response at the settled offsets.
pub open spec fn interpolated_response(d: DerivativeBlock, o: Q12Offsets) -> int {
    d.gs * o.ds + d.center_twice * 8192 + d.gx * o.dx + d.gy * o.dy
}

/// The refined point for settled offsets `o` at sample `(x, y, level)`.
pub open spec fn refined_point(
    ordinal: usize,
    raw: RawExtremum,
    x: int,
    y: int,
    level: int,
    iteration: int,
    d: DerivativeBlock,
    o: Q12Offsets,
) -> RefinedExtremum {
    RefinedExtremum {
        ordinal,
        raw,
        x: x as usize,
        y: y as usize,
        dog_level: level as u8,
        dx_q12: o.dx,
        dy_q12: o.dy,
        ds_q12: o.ds,
        x_q8: ((x * 4096 + o.dx) / 16) as u16,
        y_q8: ((y * 4096 + o.dy) / 16) as u16,
        response: (arith::abs(interpolated_response(d, o)) / 4096) as i32,
        spatial_det: d.spatial_det,
        scale_q16: exp2_q16_spec(((level * 4096 + o.ds) * 4) as i32),
        iterations: iteration as u8,
    }
}

/// A sample that the refinement may visit.
pub open spec fn refinable(x: int, y: int, level: int) -> bool {
    &&& GF3258_MIN_REFINED_LEVEL <= level <= GF3258_MAX_REFINED_LEVEL
    &&& 1 <= x < GF3258_WIDTH - 1
    &&& 1 <= y < GF3258_HEIGHT - 1
}

/// Refinement from sample `(x, y, level)`, which is solve number `iteration`.
pub open spec fn refine_from(
    p: Seq<Seq<u16>>,
    ordinal: usize,
    raw: RawExtremum,
    x: int,
    y: int,
    level: int,
    iteration: int,
) -> Result<RefinedExtremum, RefinementFailure>
    decreases GF3258_MAX_REFINEMENT_ITERS - iteration,
{
    match derivatives_spec(p, level, x, y) {
        Err(failure) => Err(failure),
        Ok(d) => {
            let o = q12_offsets_spec(d);
            if !(is_settled(o.dx as int) && is_settled(o.dy as int) && is_settled(o.ds as int)) {
                let nx = x + q12_round_spec(o.dx);
                let ny = y + q12_round_spec(o.dy);
                let nlevel = level + q12_round_spec(o.ds);
                if !refinable(nx, ny, nlevel) {
                    Err(RefinementFailure::RelocationOutOfBounds)
                } else if iteration >= GF3258_MAX_REFINEMENT_ITERS {
                    Err(RefinementFailure::IterationLimit)
                } else {
                    refine_from(p, ordinal, raw, nx, ny, nlevel, iteration + 1)
                }
            } else if arith::abs(interpolated_response(d, o)) < GF3258_INTERPOLATED_CONTRAST_MIN {
                Err(RefinementFailure::InterpolatedContrast)
            } else if d.spatial_det <= 0 {
                Err(RefinementFailure::SpatialHessian)
            } else {
                Ok(refined_point(ordinal, raw, x, y, level, iteration, d, o))
            }
        },
    }
}

/// Outcome of refining one raw extremum.
pub open spec fn outcome_spec(p: Seq<Seq<u16>>, ordinal: usize, raw: RawExtremum) -> RefinementOutcome {
    match refine_from(p, ordinal, raw, raw.x as int, raw.y as int, raw.dog_level as int, 1) {
        Ok(refined) => RefinementOutcome::Accepted(refined),
        Err(failure) => RefinementOutcome::Fallback(
            FallbackExtremum {
                ordinal,
                raw,
                failure,
                x_q8: (raw.x * 256) as u16,
                y_q8: (raw.y * 256) as u16,
                scale_q16: fallback_scale_spec(raw.dog_level),
            },
        ),
    }
}

/// Outcome of every raw extremum, in scan order.
pub open spec fn outcomes_spec(p: Seq<Seq<u16>>) -> Seq<RefinementOutcome> {
    let raw = raw_extrema_spec(p);
    Seq::new(raw.len(), |i: int| outcome_spec(p, i as usize, raw[i]))
}

/// Raster index of a refined point's integer sample.
pub open spec fn pixel_of(point: RefinedExtremum) -> int {
    point.y * GF3258_WIDTH + point.x
}

/// Some accepted outcome before position `n` sits on pixel `i`.
pub open spec fn pixel_used(outcomes: Seq<RefinementOutcome>, n: int, i: int) -> bool {
    exists|j: int|
        0 <= j < n && (#[trigger] outcomes[j]) is Accepted && pixel_of(outcomes[j]->Accepted_0) == i
}

/// Accepted points among the first `n` outcomes, each pixel taken only once, by
/// the first point that reaches it.
pub open spec fn primary_prefix(outcomes: Seq<RefinementOutcome>, n: nat) -> Seq<RefinedExtremum>
    decreases n,
{
    if n == 0 {
        Seq::empty()
    } else {
        let before = primary_prefix(outcomes, (n - 1) as nat);
        match outcomes[n - 1] {
            RefinementOutcome::Accepted(point) => if pixel_used(outcomes, n - 1, pixel_of(point)) {
                before
            } else {
                before.push(point)
            },
            RefinementOutcome::Fallback(_) => before,
        }
    }
}

pub open spec fn primary_candidates_spec(outcomes: Seq<RefinementOutcome>) -> Seq<RefinedExtremum> {
    primary_prefix(outcomes, outcomes.len())
}

/// A level list whose entries are the images `p`.
pub open spec fn holds_levels(levels: Seq<Vec<u16>>, p: Seq<Seq<u16>>) -> bool {
    &&& levels.len() == p.len()
    &&& forall|k: int| 0 <= k < p.len() ==> (#[trigger] levels[k])@ == p[k]
}

/// The Gaussian pyramid of an image and the differences of adjacent levels.
#[derive(Debug, Clone)]
pub struct Gf3258ScaleSpace {
    levels: Vec<Vec<u16>>,
    dogs: Vec<Vec<i32>>,
}

/// `out[i] = a[i] - b[i]`.
pub open spec fn level_difference(a: Seq<u16>, b: Seq<u16>) -> Seq<i32> {
    Seq::new(a.len(), |i: int| (a[i] - b[i]) as i32)
}

fn subtract_levels(hi: &Vec<u16>, lo: &Vec<u16>) -> (out: Vec<i32>)
    requires
        hi@.len() == lo@.len(),
    ensures
        out@ == level_difference(hi@, lo@),
{
    let mut out: Vec<i32> = Vec::with_capacity(hi.len());
    for i in 0..hi.len()
        invariant
            hi@.len() == lo@.len(),
            out@.len() == i,
            forall|j: int| 0 <= j < i ==> out@[j] == level_difference(hi@, lo@)[j],
    {
        out.push(hi[i] as i32 - lo[i] as i32);
    }
    out
}

impl Gf3258ScaleSpace {
    /// The pyramid levels as images.
    pub closed spec fn pyramid(&self) -> Seq<Seq<u16>> {
        Seq::new(self.levels@.len(), |k: int| self.levels@[k]@)
    }

    /// The stored differences as images.
    pub closed spec fn differences(&self) -> Seq<Seq<i32>> {
        Seq::new(self.dogs@.len(), |k: int| self.dogs@[k]@)
    }

    /// Nine full-size levels, and every difference of two adjacent ones.
    pub open spec fn wf(&self) -> bool {
        &&& is_pyramid(self.pyramid())
        &&& self.differences() == Seq::new(
            GF3258_DOG_LEVELS as nat,
            |k: int| level_difference(self.pyramid()[k + 1], self.pyramid()[k]),
        )
    }

    /// Builds the scale space of an 80x64 image.
    pub fn build(image: &[u8]) -> (result: Result<Self, FeatureError>)
        ensures
            image@.len() != GF3258_PIXELS ==> result == Err::<Self, FeatureError>(
                FeatureError::UnexpectedPixelCount {
                    expected: GF3258_PIXELS,
                    actual: image@.len() as usize,
                },
            ),
            image@.len() == GF3258_PIXELS ==> result is Ok && result->Ok_0.wf()
                && result->Ok_0.pyramid() == pyramid(image@),
            result is Ok ==> result->Ok_0.differences().len() == 8 && are_differences(
                result->Ok_0.differences(),
                result->Ok_0.pyramid(),
            ),
    {
        if image.len() != GF3258_PIXELS {
            return Err(
                FeatureError::UnexpectedPixelCount { expected: GF3258_PIXELS, actual: image.len() },
            );
        }
        let source: Vec<u16> = widen_image(image);
        let mut levels: Vec<Vec<u16>> = Vec::with_capacity(GF3258_PYRAMID_LEVELS);
        levels.push(filter::separable_q16_reflect101(source.as_slice(), GAUSS_300.as_slice()));
        levels.push(filter::separable_q16_reflect101(source.as_slice(), GAUSS_301.as_slice()));
        for k in 2..GF3258_PYRAMID_LEVELS
            invariant
                levels@.len() == k,
                image@.len() == GF3258_PIXELS,
                forall|j: int| 0 <= j < k ==> (#[trigger] levels@[j])@ == pyramid_level(image@, j),
                forall|j: int| 0 <= j < k ==> (#[trigger] levels@[j])@.len() == GF3258_PIXELS,
        {
            let next: Vec<u16> = if k == 2 {
                filter::separable_q16_reflect101(levels[k - 1].as_slice(), GAUSS_302.as_slice())
            } else if k == 3 {
                filter::separable_q16_reflect101(levels[k - 1].as_slice(), GAUSS_303.as_slice())
            } else if k == 4 {
                filter::separable_q16_reflect101(levels[k - 1].as_slice(), GAUSS_304.as_slice())
            } else if k == 5 {
                filter::separable_q16_reflect101(levels[k - 1].as_slice(), GAUSS_305.as_slice())
            } else if k == 6 {
                filter::separable_q16_reflect101(levels[k - 1].as_slice(), GAUSS_306.as_slice())
            } else if k == 7 {
                filter::separable_q16_reflect101(levels[k - 1].as_slice(), GAUSS_307.as_slice())
            } else {
                filter::separable_q16_reflect101(levels[k - 1].as_slice(), GAUSS_308.as_slice())
            };
            levels.push(next);
        }
        let mut dogs: Vec<Vec<i32>> = Vec::with_capacity(GF3258_DOG_LEVELS);
        for k in 0..GF3258_DOG_LEVELS
            invariant
                levels@.len() == GF3258_PYRAMID_LEVELS,
                forall|j: int| 0 <= j < 9 ==> (#[trigger] levels@[j])@.len() == GF3258_PIXELS,
                dogs@.len() == k,
                forall|j: int|
                    0 <= j < k ==> (#[trigger] dogs@[j])@ == level_difference(
                        levels@[j + 1]@,
                        levels@[j]@,
                    ),
        {
            dogs.push(subtract_levels(&levels[k + 1], &levels[k]));
        }
        let space = Gf3258ScaleSpace { levels, dogs };
        proof {
            assert(space.pyramid() =~= pyramid(image@));
            assert(space.differences() =~= Seq::new(
                GF3258_DOG_LEVELS as nat,
                |k: int| level_difference(space.pyramid()[k + 1], space.pyramid()[k]),
            ));
            let d = space.differences();
            let p = space.pyramid();
            assert forall|s: int, i: int| 0 <= s < 8 && 0 <= i < 5120 implies #[trigger] d[s][i]
                == p[s + 1][i] - p[s][i] by {
                assert(p[s] == levels@[s]@ && p[s + 1] == levels@[s + 1]@);
                assert(levels@[s]@.len() == GF3258_PIXELS && levels@[s + 1]@.len()
                    == GF3258_PIXELS);
                assert(d[s] == level_difference(p[s + 1], p[s]));
            }
        }
        Ok(space)
    }

    pub fn levels(&self) -> (levels: &[Vec<u16>])
        ensures
            holds_levels(levels@, self.pyramid()),
    {
        self.levels.as_slice()
    }

    pub fn dogs(&self) -> (dogs: &[Vec<i32>])
        ensures
            dogs@.len() == self.differences().len(),
            forall|k: int|
                0 <= k < dogs@.len() ==> (#[trigger] dogs@[k])@ == self.differences()[k],
    {
        self.dogs.as_slice()
    }

    /// Response at scale `level` and pixel `(x, y)`.
    fn dog_at(&self, level: usize, x: usize, y: usize) -> (value: i32)
        requires
            self.wf(),
            level < GF3258_DOG_LEVELS,
            x < GF3258_WIDTH,
            y < GF3258_HEIGHT,
        ensures
            value == dog(self.pyramid(), level as int, x as int, y as int),
            -65535 <= value <= 65535,
    {
        proof {
            assert(self.pyramid()[level as int].len() == GF3258_PIXELS);
            assert(self.pyramid()[level + 1].len() == GF3258_PIXELS);
            assert(self.pyramid()[level as int] == self.levels@[level as int]@);
            assert(self.pyramid()[level + 1] == self.levels@[level + 1]@);
        }
        let i: usize = y * GF3258_WIDTH + x;
        self.levels[level + 1][i] as i32 - self.levels[level][i] as i32
    }

    fn all_neighbors_beyond(
        &self,
        minimum: bool,
        center: i32,
        level: usize,
        x: usize,
        y: usize,
    ) -> (ok: bool)
        requires
            self.wf(),
            1 <= level <= 6,
            1 <= x < GF3258_WIDTH - 1,
            1 <= y < GF3258_HEIGHT - 1,
        ensures
            ok == neighborhood_beyond(
                self.pyramid(),
                level as int,
                x as int,
                y as int,
                minimum,
                center as int,
            ),
    {
        let ghost p = self.pyramid();
        let mut yy: usize = y - 1;
        while yy <= y + 1
            invariant
                self.wf(),
                p == self.pyramid(),
                1 <= level <= 6,
                1 <= x < GF3258_WIDTH - 1,
                1 <= y < GF3258_HEIGHT - 1,
                y - 1 <= yy <= y + 2,
                forall|a: int, b: int|
                    x - 1 <= a <= x + 1 && y - 1 <= b < yy ==> #[trigger] neighbor_beyond(
                        p,
                        level as int,
                        x as int,
                        y as int,
                        minimum,
                        center as int,
                        a,
                        b,
                    ),
            decreases y + 2 - yy,
        {
            let mut xx: usize = x - 1;
            while xx <= x + 1
                invariant
                    self.wf(),
                    p == self.pyramid(),
                    1 <= level <= 6,
                    1 <= x < GF3258_WIDTH - 1,
                    1 <= y < GF3258_HEIGHT - 1,
                    y - 1 <= yy <= y + 1,
                    x - 1 <= xx <= x + 2,
                    forall|a: int, b: int|
                        x - 1 <= a <= x + 1 && y - 1 <= b < yy ==> #[trigger] neighbor_beyond(
                            p,
                            level as int,
                            x as int,
                            y as int,
                            minimum,
                            center as int,
                            a,
                            b,
                        ),
                    forall|a: int|
                        x - 1 <= a < xx ==> #[trigger] neighbor_beyond(
                            p,
                            level as int,
                            x as int,
                            y as int,
                            minimum,
                            center as int,
                            a,
                            yy as int,
                        ),
                decreases x + 2 - xx,
            {
                let below: i32 = self.dog_at(level - 1, xx, yy);
                let above: i32 = self.dog_at(level + 1, xx, yy);
                let here: i32 = self.dog_at(level, xx, yy);
                let outside: bool = if minimum {
                    below < center || above < center || ((xx != x || yy != y) && here < center)
                } else {
                    below > center || above > center || ((xx != x || yy != y) && here > center)
                };
                if outside {
                    assert(!neighbor_beyond(
                        p,
                        level as int,
                        x as int,
                        y as int,
                        minimum,
                        center as int,
                        xx as int,
                        yy as int,
                    ));
                    return false;
                }
                xx = xx + 1;
            }
            yy = yy + 1;
        }
        true
    }

    /// Thresholded 3x3x3 extrema across scales six down to one.
    pub fn raw_extrema(&self) -> (out: Vec<RawExtremum>)
        requires
            self.wf(),
        ensures
            out@ == raw_extrema_spec(self.pyramid()),
            forall|e: RawExtremum| #[trigger]
                out@.contains(e) <==> is_strong_extremum(self.differences(), e),
    {
        let ghost p = self.pyramid();
        proof {
            let d = self.differences();
            assert(are_differences(d, p)) by {
                assert forall|s: int, i: int| 0 <= s < 8 && 0 <= i < 5120 implies #[trigger] d[s][i]
                    == p[s + 1][i] - p[s][i] by {
                    assert(p[s].len() == GF3258_PIXELS && p[s + 1].len() == GF3258_PIXELS);
                    assert(d[s] == level_difference(p[s + 1], p[s]));
                }
            }
            assert forall|e: RawExtremum| #[trigger]
                raw_extrema_spec(p).contains(e) <==> is_strong_extremum(d, e) by {
                lemma_raw_extrema_are_the_strong_ones(p, d, e);
            }
        }
        let mut out: Vec<RawExtremum> = Vec::new();
        let total: usize = 6 * SCAN_POSITIONS;
        for n in 0..total
            invariant
                total == 6 * SCAN_POSITIONS,
                self.wf(),
                p == self.pyramid(),
                out@ == raw_extrema_prefix(p, n as nat),
        {
            let level: usize = 6 - n / SCAN_POSITIONS;
            let position: usize = n % SCAN_POSITIONS;
            let x: usize = GF3258_EXTREMA_BORDER + position % SCAN_COLUMNS;
            let y: usize = GF3258_EXTREMA_BORDER + position / SCAN_COLUMNS;
            assert(level == scan_level(n as int) && x == scan_x(n as int) && y == scan_y(n as int));
            let response: i32 = (self.dog_at(level, x, y) as i16) as i32;
            let strong: bool = response > GF3258_DOG_CONTRAST_THRESHOLD || response
                < -GF3258_DOG_CONTRAST_THRESHOLD;
            if strong {
                let extreme: bool = self.all_neighbors_beyond(response < 0, response, level, x, y);
                if extreme {
                    out.push(
                        RawExtremum { dog_level: level as u8, x: x as u16, y: y as u16, response },
                    );
                }
            }
        }
        out
    }

    fn derivatives(&self, level: usize, x: usize, y: usize) -> (result: Result<
        DerivativeBlock,
        RefinementFailure,
    >)
        requires
            self.wf(),
            refinable(x as int, y as int, level as int),
        ensures
            result == derivatives_spec(self.pyramid(), level as int, x as int, y as int),
            result is Ok ==> derivatives_bounded(result->Ok_0) && result->Ok_0.spatial_det
                == result->Ok_0.hyy * result->Ok_0.hxx - result->Ok_0.hxy * result->Ok_0.hxy,
    {
        let center: i32 = self.dog_at(level, x, y);
        let left: i32 = self.dog_at(level, x - 1, y);
        let right: i32 = self.dog_at(level, x + 1, y);
        let up: i32 = self.dog_at(level, x, y - 1);
        let down: i32 = self.dog_at(level, x, y + 1);
        let prev: i32 = self.dog_at(level - 1, x, y);
        let next: i32 = self.dog_at(level + 1, x, y);
        let center_twice: i32 = ((2 * center) as i16) as i32;
        let gx: i32 = 2 * (right - left);
        let gy: i32 = 2 * (down - up);
        let gs: i32 = 2 * (next - prev);
        if exceeds(gx, 0x7fff) || exceeds(gy, 0x7fff) || exceeds(gs, 0x7fff) {
            return Err(RefinementFailure::FirstDerivativeOverflow);
        }
        let hxx: i32 = 4 * (right + left - center_twice);
        let hyy: i32 = 4 * (down + up - center_twice);
        let hss: i32 = 4 * (next + prev - center_twice);
        if exceeds(hxx, 0x7fff) || exceeds(hyy, 0x7fff) || exceeds(hss, 0x7fff) {
            return Err(RefinementFailure::SecondDerivativeOverflow);
        }
        let hxy: i32 = self.dog_at(level, x + 1, y + 1) - self.dog_at(level, x - 1, y + 1)
            - self.dog_at(level, x + 1, y - 1) + self.dog_at(level, x - 1, y - 1);
        let hxs: i32 = self.dog_at(level + 1, x + 1, y) - self.dog_at(level + 1, x - 1, y)
            - self.dog_at(level - 1, x + 1, y) + self.dog_at(level - 1, x - 1, y);
        let hys: i32 = self.dog_at(level + 1, x, y + 1) - self.dog_at(level + 1, x, y - 1)
            - self.dog_at(level - 1, x, y + 1) + self.dog_at(level - 1, x, y - 1);
        if exceeds(hxy, 0x1fff) || exceeds(hxs, 0x1fff) || exceeds(hys, 0x1fff) {
            return Err(RefinementFailure::MixedDerivativeOverflow);
        }
        proof {
            arith::lemma_mul_bound(hyy as int, hxx as int, 0x7fff, 0x7fff);
            arith::lemma_mul_bound(hxy as int, hxy as int, 0x1fff, 0x1fff);
        }
        let spatial_det: i64 = (hyy as i64) * (hxx as i64) - (hxy as i64) * (hxy as i64);
        Ok(DerivativeBlock { center_twice, gx, gy, gs, hxx, hyy, hss, hxy, hxs, hys, spatial_det })
    }

    fn refine_one(&self, ordinal: usize, raw: RawExtremum) -> (result: Result<
        RefinedExtremum,
        RefinementFailure,
    >)
        requires
            self.wf(),
            refinable(raw.x as int, raw.y as int, raw.dog_level as int),
        ensures
            result == refine_from(
                self.pyramid(),
                ordinal,
                raw,
                raw.x as int,
                raw.y as int,
                raw.dog_level as int,
                1,
            ),
    {
        let ghost p = self.pyramid();
        let ghost whole = refine_from(
            p,
            ordinal,
            raw,
            raw.x as int,
            raw.y as int,
            raw.dog_level as int,
            1,
        );
        let mut x: i32 = raw.x as i32;
        let mut y: i32 = raw.y as i32;
        let mut level: i32 = raw.dog_level as i32;
        let mut iteration: usize = 1;
        loop
            invariant
                self.wf(),
                p == self.pyramid(),
                refinable(x as int, y as int, level as int),
                1 <= iteration <= GF3258_MAX_REFINEMENT_ITERS,
                whole == refine_from(
                    p,
                    ordinal,
                    raw,
                    x as int,
                    y as int,
                    level as int,
                    iteration as int,
                ),
                whole == refine_from(
                    self.pyramid(),
                    ordinal,
                    raw,
                    raw.x as int,
                    raw.y as int,
                    raw.dog_level as int,
                    1,
                ),
            decreases GF3258_MAX_REFINEMENT_ITERS - iteration,
        {
            let d: DerivativeBlock = match self.derivatives(level as usize, x as usize, y as usize) {
                Ok(d) => d,
                Err(failure) => {
                    return Err(failure);
                },
            };
            let o: Q12Offsets = solve_q12_offsets(&d);
            let settled: bool = q12_is_settled(o.dx) && q12_is_settled(o.dy) && q12_is_settled(o.ds);
            if settled {
                proof {
                    arith::lemma_mul_bound(d.gs as int, o.ds as int, 0x7fff, 0x7ff);
                    arith::lemma_mul_bound(d.gx as int, o.dx as int, 0x7fff, 0x7ff);
                    arith::lemma_mul_bound(d.gy as int, o.dy as int, 0x7fff, 0x7ff);
                }
                let interpolated: i64 = (d.gs as i64) * (o.ds as i64) + (d.center_twice as i64)
                    * 8192 + (d.gx as i64) * (o.dx as i64) + (d.gy as i64) * (o.dy as i64);
                let magnitude: i64 = if interpolated < 0 {
                    -interpolated
                } else {
                    interpolated
                };
                if magnitude < GF3258_INTERPOLATED_CONTRAST_MIN {
                    return Err(RefinementFailure::InterpolatedContrast);
                }
                if d.spatial_det <= 0 {
                    return Err(RefinementFailure::SpatialHessian);
                }
                let x_q12: i32 = x * 4096 + o.dx;
                let y_q12: i32 = y * 4096 + o.dy;
                let scale_exponent_q16: i32 = (level * 4096 + o.ds) * 4;
                return Ok(
                    RefinedExtremum {
                        ordinal,
                        raw,
                        x: x as usize,
                        y: y as usize,
                        dog_level: level as u8,
                        dx_q12: o.dx,
                        dy_q12: o.dy,
                        ds_q12: o.ds,
                        x_q8: (x_q12 / 16) as u16,
                        y_q8: (y_q12 / 16) as u16,
                        response: (magnitude / 4096) as i32,
                        spatial_det: d.spatial_det,
                        scale_q16: exp2_q16(scale_exponent_q16),
                        iterations: iteration as u8,
                    },
                );
            }
            x = x + q12_round_sample(o.dx);
            y = y + q12_round_sample(o.dy);
            level = level + q12_round_sample(o.ds);
            if level < GF3258_MIN_REFINED_LEVEL || level > GF3258_MAX_REFINED_LEVEL || x < 1 || x
                >= GF3258_WIDTH as i32 - 1 || y < 1 || y >= GF3258_HEIGHT as i32 - 1 {
                return Err(RefinementFailure::RelocationOutOfBounds);
            }
            if iteration == GF3258_MAX_REFINEMENT_ITERS {
                return Err(RefinementFailure::IterationLimit);
            }
            iteration = iteration + 1;
        }
    }

    /// Refines every raw extremum: it is accepted, or it keeps its unrefined
    /// geometry together with the reason.
    pub fn refinement_outcomes(&self) -> (out: Vec<RefinementOutcome>)
        requires
            self.wf(),
        ensures
            out@ == outcomes_spec(self.pyramid()),
    {
        let ghost p = self.pyramid();
        let raw: Vec<RawExtremum> = self.raw_extrema();
        let mut out: Vec<RefinementOutcome> = Vec::with_capacity(raw.len());
        for ordinal in 0..raw.len()
            invariant
                self.wf(),
                p == self.pyramid(),
                raw@ == raw_extrema_spec(p),
                out@.len() == ordinal,
                forall|j: int| 0 <= j < ordinal ==> out@[j] == outcomes_spec(p)[j],
        {
            let point: RawExtremum = raw[ordinal];
            proof {
                lemma_raw_extremum_interior(p, (6 * SCAN_POSITIONS) as nat, ordinal as int);
            }
            match self.refine_one(ordinal, point) {
                Ok(refined) => {
                    out.push(RefinementOutcome::Accepted(refined));
                },
                Err(failure) => {
                    out.push(
                        RefinementOutcome::Fallback(
                            FallbackExtremum {
                                ordinal,
                                raw: point,
                                failure,
                                x_q8: point.x * 256,
                                y_q8: point.y * 256,
                                scale_q16: fallback_scale_q16(point.dog_level),
                            },
                        ),
                    );
                },
            }
        }
        out
    }

    /// Accepted outcomes, each integer sample taken once by the first point that
    /// reaches it.
    pub fn primary_candidates(&self, outcomes: &[RefinementOutcome]) -> (out: Vec<RefinedExtremum>)
        requires
            forall|j: int|
                0 <= j < outcomes@.len() && (#[trigger] outcomes@[j]) is Accepted ==> pixel_of(
                    outcomes@[j]->Accepted_0,
                ) < GF3258_PIXELS,
        ensures
            out@ == primary_candidates_spec(outcomes@),
    {
        let mut used: Vec<bool> = vec![false; GF3258_PIXELS];
        let mut out: Vec<RefinedExtremum> = Vec::new();
        for n in 0..outcomes.len()
            invariant
                forall|j: int|
                    0 <= j < outcomes@.len() && (#[trigger] outcomes@[j]) is Accepted ==> pixel_of(
                        outcomes@[j]->Accepted_0,
                    ) < GF3258_PIXELS,
                used@.len() == GF3258_PIXELS,
                forall|i: int|
                    0 <= i < GF3258_PIXELS ==> used@[i] == pixel_used(outcomes@, n as int, i),
                out@ == primary_prefix(outcomes@, n as nat),
        {
            let ghost before = used@;
            match outcomes[n] {
                RefinementOutcome::Accepted(point) => {
                    assert(outcomes@[n as int] is Accepted);
                    assert(point.y <= pixel_of(point)) by (nonlinear_arith)
                        requires
                            pixel_of(point) == point.y * 80 + point.x,
                            point.y >= 0,
                            point.x >= 0,
                    ;
                    let i: usize = point.y * GF3258_WIDTH + point.x;
                    if !used[i] {
                        used.set(i, true);
                        out.push(point);
                    }
                    proof {
                        assert forall|k: int| 0 <= k < GF3258_PIXELS implies used@[k] == pixel_used(
                            outcomes@,
                            n + 1,
                            k,
                        ) by {
                            if pixel_used(outcomes@, n as int, k) {
                                let j = choose|j: int|
                                    0 <= j < n && (#[trigger] outcomes@[j]) is Accepted && pixel_of(
                                        outcomes@[j]->Accepted_0,
                                    ) == k;
                                assert(outcomes@[j] is Accepted);
                            }
                            if k == i {
                                assert(outcomes@[n as int] is Accepted);
                            }
                        }
                    }
                },
                RefinementOutcome::Fallback(_) => {
                    proof {
                        assert forall|k: int| 0 <= k < GF3258_PIXELS implies used@[k] == pixel_used(
                            outcomes@,
                            n + 1,
                            k,
                        ) by {
                            if pixel_used(outcomes@, n as int, k) {
                                let j = choose|j: int|
                                    0 <= j < n && (#[trigger] outcomes@[j]) is Accepted && pixel_of(
                                        outcomes@[j]->Accepted_0,
                                    ) == k;
                                assert(outcomes@[j] is Accepted);
                            }
                        }
                    }
                },
            }
        }
        out
    }
}

/// Raw extrema lie inside the scan border, on scales one to six.
pub proof fn lemma_raw_extremum_interior(p: Seq<Seq<u16>>, n: nat, i: int)
    requires
        n <= 6 * SCAN_POSITIONS,
        0 <= i < raw_extrema_prefix(p, n).len(),
    ensures
        1 <= raw_extrema_prefix(p, n)[i].dog_level <= 6,
        6 <= raw_extrema_prefix(p, n)[i].x < GF3258_WIDTH - 6,
        6 <= raw_extrema_prefix(p, n)[i].y < GF3258_HEIGHT - 6,
    decreases n,
{
    if n > 0 {
        let before = raw_extrema_prefix(p, (n - 1) as nat);
        if i < before.len() {
            lemma_raw_extremum_interior(p, (n - 1) as nat, i);
        }
    }
}

fn exceeds(value: i32, limit: i32) -> (r: bool)
    requires
        limit >= 0,
    ensures
        r == (arith::abs(value as int) > limit),
{
    value > limit || value < -limit
}

pub fn q12_is_settled(value: i32) -> (r: bool)
    ensures
        r == is_settled(value as int),
{
    -GF3258_SETTLED_Q12 <= value && value <= GF3258_SETTLED_Q12
}

/// Q12 offset to integer relocation: nearest sample, exact half away from zero.
pub fn q12_round_sample(value: i32) -> (r: i32)
    ensures
        r == q12_round_spec(value),
        -0x8_0000 <= r <= 0x8_0000,
{
    if value < 0 {
        let magnitude: i32 = 0i32.wrapping_sub(value);
        proof {
            lemma_q12_parts(magnitude);
        }
        let half: i32 = if (magnitude & 0x800) != 0 {
            1
        } else {
            0
        };
        -((magnitude >> 12u32) + half)
    } else {
        proof {
            lemma_q12_parts(value);
        }
        let half: i32 = if (value & 0x800) != 0 {
            1
        } else {
            0
        };
        (value >> 12u32) + half
    }
}

proof fn lemma_q12_parts(m: i32)
    ensures
        m >> 12u32 == m as int / 4096,
        (m & 0x800) != 0 <==> (m as int / 2048) % 2 == 1,
{
    assert(m >> 12u32 == m / 4096) by (bit_vector);
    assert((m & 0x800) != 0 <==> (m / 2048) % 2 == 1) by (bit_vector);
}

/// A magnitude has as many binary digits as the least power of two above it.
proof fn lemma_bit_length(m: nat)
    ensures
        m < vstd::arithmetic::power2::pow2(bit_length(m)),
        m > 0 ==> bit_length(m) >= 1 && vstd::arithmetic::power2::pow2(
            (bit_length(m) - 1) as nat,
        ) <= m,
    decreases m,
{
    vstd::arithmetic::power2::lemma2_to64();
    if m > 0 {
        lemma_bit_length(m / 2);
        vstd::arithmetic::power2::lemma_pow2_unfold(bit_length(m));
        if m / 2 > 0 {
            vstd::arithmetic::power2::lemma_pow2_unfold((bit_length(m) - 1) as nat);
        }
    }
}

/// One more than the number of binary digits of `|value|`.
fn bit_length_plus_one(value: i64) -> (count: i32)
    ensures
        count == bit_length(arith::abs(value as int) as nat) + 1,
        1 <= count <= 65,
{
    let mut magnitude: u64 = if value < 0 {
        (-(value as i128)) as u64
    } else {
        value as u64
    };
    let mut count: i32 = 1;
    let ghost total = bit_length(magnitude as nat);
    proof {
        lemma_bit_length(magnitude as nat);
        vstd::arithmetic::power2::lemma2_to64();
        if total > 64 {
            vstd::arithmetic::power2::lemma_pow2_strictly_increases(64, total);
            vstd::arithmetic::power2::lemma2_to64_rest();
            if total - 1 > 64 {
                vstd::arithmetic::power2::lemma_pow2_strictly_increases(64, (total - 1) as nat);
            }
        }
    }
    while magnitude != 0
        invariant
            total == count - 1 + bit_length(magnitude as nat),
            1 <= count,
            total <= 64,
        decreases magnitude,
    {
        count = count + 1;
        magnitude = magnitude / 2;
    }
    count
}

/// After the guard shift the numerator has at most 32 significant bits and the
/// determinant does not vanish.
proof fn lemma_guard_shift(numerator: i64, determinant: i64)
    requires
        determinant != 0,
        bit_length(arith::abs(numerator as int) as nat) - bit_length(
            arith::abs(determinant as int) as nat,
        ) <= 8,
    ensures
        0 <= guard_shift(numerator as int, determinant as int) <= 33,
        ({
            let unit = vstd::arithmetic::power2::pow2(
                guard_shift(numerator as int, determinant as int) as nat,
            ) as int;
            &&& unit > 0
            &&& -0x1_0000_0000 <= numerator as int / unit <= 0x1_0000_0000
            &&& determinant as int / unit != 0
        }),
{
    let a = arith::abs(numerator as int) as nat;
    let b = arith::abs(determinant as int) as nat;
    let n = bit_length(a);
    let d = bit_length(b);
    let shift = guard_shift(numerator as int, determinant as int);
    lemma_bit_length(a);
    lemma_bit_length(b);
    vstd::arithmetic::power2::lemma2_to64();
    vstd::arithmetic::power2::lemma2_to64_rest();
    if n > 64 {
        if n - 1 > 63 {
            assert(vstd::arithmetic::power2::pow2((n - 1) as nat) >= vstd::arithmetic::power2::pow2(
                64,
            )) by {
                if n - 1 > 64 {
                    vstd::arithmetic::power2::lemma_pow2_strictly_increases(64, (n - 1) as nat);
                }
            }
        }
    }
    if d > 64 {
        assert(vstd::arithmetic::power2::pow2((d - 1) as nat) >= vstd::arithmetic::power2::pow2(64))
            by {
            if d - 1 > 64 {
                vstd::arithmetic::power2::lemma_pow2_strictly_increases(64, (d - 1) as nat);
            }
        }
    }
    assert(n <= 64 && d <= 64);
    let unit = vstd::arithmetic::power2::pow2(shift as nat) as int;
    vstd::arithmetic::power2::lemma_pow2_pos(shift as nat);
    // |numerator| < 2^31 * unit
    assert(a <= 0x8000_0000 * unit) by {
        if shift == 0 {
            assert(n <= 31);
            if n < 31 {
                vstd::arithmetic::power2::lemma_pow2_strictly_increases(n, 31);
            }
        } else if n >= d {
            vstd::arithmetic::power2::lemma_pow2_adds(31, shift as nat);
            assert(31 + shift == n);
        } else {
            vstd::arithmetic::power2::lemma_pow2_adds(31, shift as nat);
            assert(31 + shift == d);
            vstd::arithmetic::power2::lemma_pow2_strictly_increases(n, d);
        }
    }
    assert(-0x1_0000_0000 <= numerator as int / unit <= 0x1_0000_0000) by (nonlinear_arith)
        requires
            unit > 0,
            -(0x8000_0000 * unit) <= numerator as int <= 0x8000_0000 * unit,
    ;
    assert(determinant as int / unit != 0) by {
        if determinant < 0 {
            assert(determinant as int / unit < 0) by (nonlinear_arith)
                requires
                    determinant < 0,
                    unit > 0,
            ;
        } else {
            assert(unit <= b) by {
                if shift > 0 {
                    if shift < d - 1 {
                        vstd::arithmetic::power2::lemma_pow2_strictly_increases(
                            shift as nat,
                            (d - 1) as nat,
                        );
                    }
                }
            }
            assert(determinant as int / unit >= 1) by (nonlinear_arith)
                requires
                    determinant as int >= unit,
                    unit > 0,
            ;
        }
    }
}

/// Overflow-guarded signed Q12 division.
fn guarded_q12_div(numerator: i64, determinant: i64) -> (q: i32)
    requires
        determinant != 0,
    ensures
        q == guarded_q12_div_spec(numerator, determinant),
{
    let det_bits: i32 = bit_length_plus_one(determinant);
    let num_bits: i32 = bit_length_plus_one(numerator);
    if num_bits - det_bits > 8 {
        return GF3258_INVALID_OFFSET_Q12;
    }
    let shift: u64 = if num_bits > 32 && num_bits >= det_bits {
        (num_bits - 32) as u64
    } else if num_bits < det_bits && det_bits > 32 {
        (det_bits - 32) as u64
    } else {
        0
    };
    proof {
        lemma_guard_shift(numerator, determinant);
        arith::lemma_i64_shr(numerator, shift);
        arith::lemma_i64_shr(determinant, shift);
    }
    let n: i64 = numerator >> shift;
    let d: i64 = determinant >> shift;
    proof {
        arith::lemma_trunc_div_bound(n * 4096, d as int);
    }
    ((n * 4096) / d) as i32
}

fn solve_q12_offsets(d: &DerivativeBlock) -> (o: Q12Offsets)
    requires
        derivatives_bounded(*d),
    ensures
        o == q12_offsets_spec(*d),
{
    let hxx: i64 = d.hxx as i64;
    let hyy: i64 = d.hyy as i64;
    let hss: i64 = d.hss as i64;
    let hxy: i64 = d.hxy as i64;
    let hxs: i64 = d.hxs as i64;
    let hys: i64 = d.hys as i64;
    proof {
        arith::lemma_mul_bound(hyy as int, hss as int, 0x7fff, 0x7fff);
        arith::lemma_mul_bound(hys as int, hys as int, 0x1fff, 0x1fff);
        arith::lemma_mul_bound(hys as int, hxs as int, 0x1fff, 0x1fff);
        arith::lemma_mul_bound(hss as int, hxy as int, 0x7fff, 0x1fff);
        arith::lemma_mul_bound(hys as int, hxy as int, 0x1fff, 0x1fff);
        arith::lemma_mul_bound(hyy as int, hxs as int, 0x7fff, 0x1fff);
        arith::lemma_mul_bound(hxs as int, hxy as int, 0x1fff, 0x1fff);
        arith::lemma_mul_bound(hxx as int, hys as int, 0x7fff, 0x1fff);
        arith::lemma_mul_bound(hyy as int, hxx as int, 0x7fff, 0x7fff);
        arith::lemma_mul_bound(hxy as int, hxy as int, 0x1fff, 0x1fff);
        arith::lemma_mul_bound(hxx as int, hss as int, 0x7fff, 0x7fff);
        arith::lemma_mul_bound(hxs as int, hxs as int, 0x1fff, 0x1fff);
    }
    let c00: i64 = hyy * hss - hys * hys;
    let c01: i64 = hys * hxs - hss * hxy;
    let c02: i64 = hys * hxy - hyy * hxs;
    let c11: i64 = hxx * hss - hxs * hxs;
    let c12: i64 = hxs * hxy - hxx * hys;
    let c22: i64 = hyy * hxx - hxy * hxy;
    proof {
        arith::lemma_mul_bound(hxs as int, c02 as int, 0x1fff, 0x8000_0000);
        arith::lemma_mul_bound(hxy as int, c01 as int, 0x1fff, 0x8000_0000);
        arith::lemma_mul_bound(hxx as int, c00 as int, 0x7fff, 0x8000_0000);
    }
    let det: i64 = hxs * c02 + hxy * c01 + hxx * c00;
    if det == 0 {
        return Q12Offsets { dx: 0, dy: 0, ds: 0 };
    }
    let gx: i64 = d.gx as i64;
    let gy: i64 = d.gy as i64;
    let gs: i64 = d.gs as i64;
    proof {
        arith::lemma_mul_bound(-c00 as int, gx as int, 0x8000_0000, 0x7fff);
        arith::lemma_mul_bound(c01 as int, gy as int, 0x8000_0000, 0x7fff);
        arith::lemma_mul_bound(c02 as int, gs as int, 0x8000_0000, 0x7fff);
        arith::lemma_mul_bound(-c01 as int, gx as int, 0x8000_0000, 0x7fff);
        arith::lemma_mul_bound(c11 as int, gy as int, 0x8000_0000, 0x7fff);
        arith::lemma_mul_bound(c12 as int, gs as int, 0x8000_0000, 0x7fff);
        arith::lemma_mul_bound(-c02 as int, gx as int, 0x8000_0000, 0x7fff);
        arith::lemma_mul_bound(c12 as int, gy as int, 0x8000_0000, 0x7fff);
        arith::lemma_mul_bound(c22 as int, gs as int, 0x8000_0000, 0x7fff);
    }
    let nx: i64 = -c00 * gx - c01 * gy - c02 * gs;
    let ny: i64 = -c01 * gx - c11 * gy - c12 * gs;
    let ns: i64 = -c02 * gx - c12 * gy - c22 * gs;
    Q12Offsets {
        dx: guarded_q12_div(nx, det),
        dy: guarded_q12_div(ny, det),
        ds: guarded_q12_div(ns, det),
    }
}

/// Signed Q16 `2^x` approximation used by the scale conversion.
pub fn exp2_q16(x_q16: i32) -> (r: i32)
    requires
        exp2_defined(x_q16),
    ensures
        r == exp2_q16_spec(x_q16),
{
    let magnitude: i32 = if x_q16 == i32::MIN {
        0
    } else if x_q16 < 0 {
        -x_q16
    } else {
        x_q16
    };
    let integer: u64 = (magnitude / 65536) as u64;
    if integer > 46 {
        return 0;
    }
    let mut fraction: i32 = magnitude % 65536;
    proof {
        vstd::arithmetic::power2::lemma2_to64();
        vstd::arithmetic::power2::lemma_pow2_adds(16, integer as nat);
        lemma_pow2_at_most_62((16 + integer) as nat);
        vstd::bits::lemma_u64_shl_is_mul(0x1_0000u64, integer);
        vstd::arithmetic::power2::lemma_pow2_pos((16 + integer) as nat);
        vstd::arithmetic::power2::lemma_pow2_pos(integer as nat);
        assert(0x1_0000 * vstd::arithmetic::power2::pow2(integer as nat)
            == vstd::arithmetic::power2::pow2((16 + integer) as nat));
    }
    let mut value: u64 = 0x1_0000u64 << integer;
    let ghost start = value as int;
    let ghost goal = exp2_magnitude(x_q16);
    proof {
        lemma_growth_bound(0);
    }
    for index in 0..16usize
        invariant
            goal == exp2_greedy(value as int, fraction as int, index as int),
            goal == exp2_magnitude(x_q16),
            0 < start <= 0x4000_0000_0000_0000,
            start <= value,
            value * 0x1_0000_0000 <= start * growth_q32(index as nat),
    {
        let threshold: i32 = EXP2_LOG_STEPS_Q16[index];
        proof {
            lemma_growth_bound(index as nat);
            lemma_growth_bound((index + 1) as nat);
            lemma_growth_step(start, value as int, index as nat);
            vstd::bits::lemma_u64_shr_is_div(value, (index + 1) as u64);
            vstd::arithmetic::power2::lemma_pow2_pos((index + 1) as nat);
        }
        if fraction >= threshold {
            fraction = fraction - threshold;
            value = value + (value >> ((index + 1) as u64));
        }
    }
    if x_q16 > 0 {
        value as i32
    } else {
        (0x1_0000_0000u64 / value) as i32
    }
}

proof fn lemma_pow2_at_most_62(n: nat)
    requires
        n <= 62,
    ensures
        0 < vstd::arithmetic::power2::pow2(n) <= 0x4000_0000_0000_0000,
{
    vstd::arithmetic::power2::lemma2_to64();
    vstd::arithmetic::power2::lemma2_to64_rest();
    vstd::arithmetic::power2::lemma_pow2_pos(n);
    if n < 62 {
        vstd::arithmetic::power2::lemma_pow2_strictly_increases(n, 62);
    }
}

/// Q32 upper bound of the product of the first `n` factors `1 + 2^-k`.
spec fn growth_q32(n: nat) -> int
    decreases n,
{
    if n == 0 {
        0x1_0000_0000
    } else {
        let g = growth_q32((n - 1) as nat);
        g + g / vstd::arithmetic::power2::pow2(n) as int + 1
    }
}

proof fn lemma_growth_bound(n: nat)
    requires
        n <= 16,
    ensures
        0x1_0000_0000 <= growth_q32(n) < 0x3_0000_0000,
{
    vstd::arithmetic::power2::lemma2_to64();
    assert(growth_q32(0) == 0x1_0000_0000);
    assert(growth_q32(1) == 6442450945);
    assert(growth_q32(2) == 8053063682);
    assert(growth_q32(3) == 9059696643);
    assert(growth_q32(4) == 9625927684);
    assert(growth_q32(5) == 9926737925);
    assert(growth_q32(6) == 10081843206);
    assert(growth_q32(7) == 10160607607);
    assert(growth_q32(8) == 10200297481);
    assert(growth_q32(9) == 10220219938);
    assert(growth_q32(10) == 10230200622);
    assert(growth_q32(11) == 10235195838);
    assert(growth_q32(12) == 10237694666);
    assert(growth_q32(13) == 10238944385);
    assert(growth_q32(14) == 10239569321);
    assert(growth_q32(15) == 10239881808);
    assert(growth_q32(16) == 10240038057);
}

proof fn lemma_growth_step(start: int, value: int, index: nat)
    requires
        index < 16,
        0 < start <= 0x4000_0000_0000_0000,
        0 <= value,
        value * 0x1_0000_0000 <= start * growth_q32(index),
        0x1_0000_0000 <= growth_q32(index) < 0x3_0000_0000,
        0x1_0000_0000 <= growth_q32((index + 1) as nat) < 0x3_0000_0000,
    ensures
        ({
            let more = value / vstd::arithmetic::power2::pow2((index + 1) as nat) as int;
            &&& 0 <= more
            &&& (value + more) * 0x1_0000_0000 <= start * growth_q32((index + 1) as nat)
            &&& value * 0x1_0000_0000 <= start * growth_q32((index + 1) as nat)
            &&& value + more <= 0xffff_ffff_ffff_ffff
        }),
{
    let p = vstd::arithmetic::power2::pow2((index + 1) as nat) as int;
    let g = growth_q32(index);
    let h = growth_q32((index + 1) as nat);
    let more = value / p;
    vstd::arithmetic::power2::lemma_pow2_pos((index + 1) as nat);
    let gp = g / p;
    assert(h == g + gp + 1);
    assert(0 <= more && more * p <= value) by (nonlinear_arith)
        requires
            more == value / p,
            p > 0,
            value >= 0,
    ;
    assert(gp >= 0 && g < (gp + 1) * p) by (nonlinear_arith)
        requires
            gp == g / p,
            p > 0,
            g >= 0,
    ;
    // more * 2^32 * p <= value * 2^32 <= start * g < start * (gp + 1) * p
    assert(more * 0x1_0000_0000 <= start * (gp + 1)) by (nonlinear_arith)
        requires
            more * p <= value,
            value * 0x1_0000_0000 <= start * g,
            g < (gp + 1) * p,
            p > 0,
            start > 0,
            more >= 0,
    ;
    assert((value + more) * 0x1_0000_0000 <= start * h) by (nonlinear_arith)
        requires
            value * 0x1_0000_0000 <= start * g,
            more * 0x1_0000_0000 <= start * (gp + 1),
            h == g + gp + 1,
    ;
    assert(start * h <= 0x4000_0000_0000_0000 * 0x3_0000_0000) by (nonlinear_arith)
        requires
            0 < start <= 0x4000_0000_0000_0000,
            0 <= h < 0x3_0000_0000,
    ;
    assert(value * 0x1_0000_0000 <= start * h) by (nonlinear_arith)
        requires
            (value + more) * 0x1_0000_0000 <= start * h,
            more >= 0,
    ;
}

/// Scale of an extremum that was not refined.
fn fallback_scale_q16(level: u8) -> (r: i32)
    ensures
        r == fallback_scale_spec(level),
{
    let exponent: i32 = (level as i32 * 65536) / 6;
    let base: i32 = exp2_q16(exponent);
    (((base as u32) as u64 * 0x13333) / 65536) as i32
}

/// Every step of the greedy product keeps the value between the start and
/// three times the start.
proof fn lemma_exp2_greedy_bound(start: int, value: int, fraction: int, index: nat)
    requires
        index <= 16,
        0 < start <= 0x4000_0000_0000_0000,
        start <= value,
        value * 0x1_0000_0000 <= start * growth_q32(index),
    ensures
        start <= exp2_greedy(value, fraction, index as int) < 3 * start,
    decreases 16 - index,
{
    lemma_growth_bound(index);
    if index < 16 {
        lemma_growth_bound((index + 1) as nat);
        lemma_growth_step(start, value, index);
        if fraction >= EXP2_LOG_STEPS_Q16@[index as int] {
            lemma_exp2_greedy_bound(
                start,
                value + value / vstd::arithmetic::power2::pow2((index + 1) as nat) as int,
                fraction - EXP2_LOG_STEPS_Q16@[index as int],
                (index + 1) as nat,
            );
        } else {
            lemma_exp2_greedy_bound(start, value, fraction, (index + 1) as nat);
        }
    } else {
        let g = growth_q32(index);
        assert(value < 3 * start) by (nonlinear_arith)
            requires
                value * 0x1_0000_0000 <= start * g,
                g < 0x3_0000_0000,
                start > 0,
        ;
    }
}

/// Positive exponents below two give scales from one to six.
pub proof fn lemma_exp2_small(x_q16: i32)
    requires
        0 < x_q16 < 0x2_0000,
    ensures
        0x1_0000 <= exp2_q16_spec(x_q16) < 0x6_0000,
{
    let m = x_q16 as int;
    let start = vstd::arithmetic::power2::pow2((16 + m / 65536) as nat) as int;
    vstd::arithmetic::power2::lemma2_to64();
    assert(start == 0x1_0000 || start == 0x2_0000);
    assert(growth_q32(0) == 0x1_0000_0000);
    lemma_exp2_greedy_bound(start, start, m % 65536, 0);
}

/// A refined point lies on an interior sample of an inner level, less than half
/// a sample away from it, with a scale from one to six, a strong response, a
/// positive spatial determinant, and one to five solves behind it.
pub open spec fn well_refined(point: RefinedExtremum) -> bool {
    &&& refinable(point.x as int, point.y as int, point.dog_level as int)
    &&& is_settled(point.dx_q12 as int)
    &&& is_settled(point.dy_q12 as int)
    &&& is_settled(point.ds_q12 as int)
    &&& point.x_q8 == (point.x * 4096 + point.dx_q12) / 16
    &&& point.y_q8 == (point.y * 4096 + point.dy_q12) / 16
    &&& 0x1_0000 <= point.scale_q16 < 0x6_0000
    &&& GF3258_INTERPOLATED_CONTRAST_MIN / 4096 <= point.response < 0x1_c000
    &&& point.spatial_det > 0
    &&& 1 <= point.iterations <= GF3258_MAX_REFINEMENT_ITERS
}

/// What the refinement accepts is well refined.
pub proof fn lemma_refine_from(
    p: Seq<Seq<u16>>,
    ordinal: usize,
    raw: RawExtremum,
    x: int,
    y: int,
    level: int,
    iteration: int,
)
    requires
        refinable(x, y, level),
        1 <= iteration <= GF3258_MAX_REFINEMENT_ITERS,
    ensures
        refine_from(p, ordinal, raw, x, y, level, iteration) matches Ok(point) ==> {
            &&& well_refined(point)
            &&& point.ordinal == ordinal
            &&& point.raw == raw
        },
    decreases GF3258_MAX_REFINEMENT_ITERS - iteration,
{
    if let Ok(d) = derivatives_spec(p, level, x, y) {
        let o = q12_offsets_spec(d);
        if !(is_settled(o.dx as int) && is_settled(o.dy as int) && is_settled(o.ds as int)) {
            let nx = x + q12_round_spec(o.dx);
            let ny = y + q12_round_spec(o.dy);
            let nlevel = level + q12_round_spec(o.ds);
            if refinable(nx, ny, nlevel) && iteration < GF3258_MAX_REFINEMENT_ITERS {
                lemma_refine_from(p, ordinal, raw, nx, ny, nlevel, iteration + 1);
            }
        } else {
            let e = (level * 4096 + o.ds) * 4;
            assert(0 < e < 0x2_0000);
            lemma_exp2_small(e as i32);
            arith::lemma_mul_bound(d.gs as int, o.ds as int, 0x7fff, 0x7ff);
            arith::lemma_mul_bound(d.gx as int, o.dx as int, 0x7fff, 0x7ff);
            arith::lemma_mul_bound(d.gy as int, o.dy as int, 0x7fff, 0x7ff);
        }
    }
}

/// Every accepted outcome of a pyramid is well refined, and belongs to the raw
/// extremum of the same position.
pub proof fn lemma_outcome_well_refined(p: Seq<Seq<u16>>, j: int)
    requires
        0 <= j < outcomes_spec(p).len(),
    ensures
        outcomes_spec(p)[j] matches RefinementOutcome::Accepted(point) ==> {
            &&& well_refined(point)
            &&& point.ordinal == j as usize
            &&& point.raw == raw_extrema_spec(p)[j]
        },
{
    let raw = raw_extrema_spec(p)[j];
    lemma_raw_extremum_interior(p, (6 * SCAN_POSITIONS) as nat, j);
    lemma_refine_from(
        p,
        j as usize,
        raw,
        raw.x as int,
        raw.y as int,
        raw.dog_level as int,
        1,
    );
}

/// Every primary candidate is an accepted outcome.
pub proof fn lemma_primary_is_accepted(outcomes: Seq<RefinementOutcome>, n: nat, k: int) -> (j: int)
    requires
        n <= outcomes.len(),
        0 <= k < primary_prefix(outcomes, n).len(),
    ensures
        0 <= j < n,
        outcomes[j] == RefinementOutcome::Accepted(primary_prefix(outcomes, n)[k]),
    decreases n,
{
    let before = primary_prefix(outcomes, (n - 1) as nat);
    if k < before.len() {
        lemma_primary_is_accepted(outcomes, (n - 1) as nat, k)
    } else {
        n - 1
    }
}

/// Two primary candidates never share a pixel.
pub proof fn lemma_primary_pixels_distinct(outcomes: Seq<RefinementOutcome>, n: nat, a: int, b: int)
    requires
        n <= outcomes.len(),
        0 <= a < b < primary_prefix(outcomes, n).len(),
    ensures
        pixel_of(primary_prefix(outcomes, n)[a]) != pixel_of(primary_prefix(outcomes, n)[b]),
    decreases n,
{
    let before = primary_prefix(outcomes, (n - 1) as nat);
    if b < before.len() {
        lemma_primary_pixels_distinct(outcomes, (n - 1) as nat, a, b);
    } else {
        let j = lemma_primary_is_accepted(outcomes, (n - 1) as nat, a);
        assert(outcomes[j] is Accepted);
    }
}

/// A displacement `(nx, ny, ns) / det` takes the gradient of the quadratic away:
/// the Hessian applied to it is the negative gradient.
pub open spec fn cancels_gradient(d: DerivativeBlock, nx: int, ny: int, ns: int, det: int) -> bool {
    &&& d.hxx * nx + d.hxy * ny + d.hxs * ns == -(det * d.gx)
    &&& d.hxy * nx + d.hyy * ny + d.hys * ns == -(det * d.gy)
    &&& d.hxs * nx + d.hys * ny + d.hss * ns == -(det * d.gs)
}

/// Determinant of the Hessian, by its first row.
pub open spec fn hessian_determinant(d: DerivativeBlock) -> int {
    d.hxx * (d.hyy * d.hss - d.hys * d.hys) - d.hxy * (d.hxy * d.hss - d.hys * d.hxs) + d.hxs * (
    d.hxy * d.hys - d.hyy * d.hxs)
}

/// Solving for the offsets goes to the extremum of the quadratic: they are the
/// quotients, over the determinant of the Hessian, of a displacement that takes its
/// gradient away. A singular Hessian moves nothing.
pub proof fn lemma_offsets_cancel_gradient(d: DerivativeBlock)
    requires
        derivatives_bounded(d),
    ensures
        ({
            let o = q12_offsets_spec(d);
            &&& hessian_determinant(d) == 0 ==> o == (Q12Offsets { dx: 0, dy: 0, ds: 0 })
            &&& hessian_determinant(d) != 0 ==> exists|nx: i64, ny: i64, ns: i64, det: i64|
                {
                    &&& det == hessian_determinant(d)
                    &&& #[trigger] cancels_gradient(
                        d,
                        nx as int,
                        ny as int,
                        ns as int,
                        det as int,
                    )
                    &&& o.dx == guarded_q12_div_spec(nx, det)
                    &&& o.dy == guarded_q12_div_spec(ny, det)
                    &&& o.ds == guarded_q12_div_spec(ns, det)
                }
        }),
{
    let (a, b, c) = (d.hxx as int, d.hxy as int, d.hxs as int);
    let (e, f, h) = (d.hyy as int, d.hys as int, d.hss as int);
    let (x, y, z) = (d.gx as int, d.gy as int, d.gs as int);
    let c00 = e * h - f * f;
    let c01 = f * c - h * b;
    let c02 = f * b - e * c;
    let c11 = a * h - c * c;
    let c12 = c * b - a * f;
    let c22 = e * a - b * b;
    let det = c * c02 + b * c01 + a * c00;
    let nx = -c00 * x - c01 * y - c02 * z;
    let ny = -c01 * x - c11 * y - c12 * z;
    let ns = -c02 * x - c12 * y - c22 * z;
    arith::lemma_mul_bound(e, h, 0x7fff, 0x7fff);
    arith::lemma_mul_bound(f, f, 0x1fff, 0x1fff);
    arith::lemma_mul_bound(f, c, 0x1fff, 0x1fff);
    arith::lemma_mul_bound(h, b, 0x7fff, 0x1fff);
    arith::lemma_mul_bound(f, b, 0x1fff, 0x1fff);
    arith::lemma_mul_bound(e, c, 0x7fff, 0x1fff);
    arith::lemma_mul_bound(c, b, 0x1fff, 0x1fff);
    arith::lemma_mul_bound(a, f, 0x7fff, 0x1fff);
    arith::lemma_mul_bound(e, a, 0x7fff, 0x7fff);
    arith::lemma_mul_bound(b, b, 0x1fff, 0x1fff);
    arith::lemma_mul_bound(a, h, 0x7fff, 0x7fff);
    arith::lemma_mul_bound(c, c, 0x1fff, 0x1fff);
    arith::lemma_mul_bound(c, c02, 0x1fff, 0x8000_0000);
    arith::lemma_mul_bound(b, c01, 0x1fff, 0x8000_0000);
    arith::lemma_mul_bound(a, c00, 0x7fff, 0x8000_0000);
    arith::lemma_mul_bound(-c00, x, 0x8000_0000, 0x7fff);
    arith::lemma_mul_bound(c01, y, 0x8000_0000, 0x7fff);
    arith::lemma_mul_bound(c02, z, 0x8000_0000, 0x7fff);
    arith::lemma_mul_bound(-c01, x, 0x8000_0000, 0x7fff);
    arith::lemma_mul_bound(c11, y, 0x8000_0000, 0x7fff);
    arith::lemma_mul_bound(c12, z, 0x8000_0000, 0x7fff);
    arith::lemma_mul_bound(-c02, x, 0x8000_0000, 0x7fff);
    arith::lemma_mul_bound(c12, y, 0x8000_0000, 0x7fff);
    arith::lemma_mul_bound(c22, z, 0x8000_0000, 0x7fff);
    assert(b * (f * c - h * b) == -(b * (b * h - f * c))) by (nonlinear_arith);
    assert(b * f == f * b && h * b == b * h) by (nonlinear_arith);
    assert(hessian_determinant(d) == det);
    if det != 0 {
        lemma_cofactors(a, b, c, e, f, h);
        lemma_row_product(a, b, c, c00, c01, c02, c11, c12, c22, x, y, z);
        lemma_row_product(b, e, f, c00, c01, c02, c11, c12, c22, x, y, z);
        lemma_row_product(c, f, h, c00, c01, c02, c11, c12, c22, x, y, z);
        assert(0 * x == 0 && 0 * y == 0 && 0 * z == 0) by (nonlinear_arith);
        assert(cancels_gradient(d, (nx as i64) as int, (ny as i64) as int, (ns as i64) as int, (
        det as i64) as int));
    }
}

/// The cofactor identities of a symmetric matrix.
proof fn lemma_cofactors(a: int, b: int, c: int, e: int, f: int, h: int)
    ensures
        ({
            let c00 = e * h - f * f;
            let c01 = f * c - h * b;
            let c02 = f * b - e * c;
            let c11 = a * h - c * c;
            let c12 = c * b - a * f;
            let c22 = e * a - b * b;
            let det = c * c02 + b * c01 + a * c00;
            &&& a * c00 + b * c01 + c * c02 == det
            &&& a * c01 + b * c11 + c * c12 == 0
            &&& a * c02 + b * c12 + c * c22 == 0
            &&& b * c00 + e * c01 + f * c02 == 0
            &&& b * c01 + e * c11 + f * c12 == det
            &&& b * c02 + e * c12 + f * c22 == 0
            &&& c * c00 + f * c01 + h * c02 == 0
            &&& c * c01 + f * c11 + h * c12 == 0
            &&& c * c02 + f * c12 + h * c22 == det
        }),
{
    assert(a * (f * c - h * b) + b * (a * h - c * c) + c * (c * b - a * f) == 0)
        by (nonlinear_arith);
    assert(a * (f * b - e * c) + b * (c * b - a * f) + c * (e * a - b * b) == 0)
        by (nonlinear_arith);
    assert(b * (e * h - f * f) + e * (f * c - h * b) + f * (f * b - e * c) == 0)
        by (nonlinear_arith);
    assert(e * (a * h - c * c) == a * (e * h) - c * (e * c)) by (nonlinear_arith);
    assert(f * (c * b - a * f) == c * (f * b) - a * (f * f)) by (nonlinear_arith);
    assert(c * (f * b - e * c) == c * (f * b) - c * (e * c)) by (nonlinear_arith);
    assert(a * (e * h - f * f) == a * (e * h) - a * (f * f)) by (nonlinear_arith);
    assert(b * (f * b - e * c) + e * (c * b - a * f) + f * (e * a - b * b) == 0)
        by (nonlinear_arith);
    assert(c * (e * h - f * f) + f * (f * c - h * b) + h * (f * b - e * c) == 0)
        by (nonlinear_arith);
    assert(c * (f * c - h * b) + f * (a * h - c * c) + h * (c * b - a * f) == 0)
        by (nonlinear_arith);
    assert(f * (c * b - a * f) == b * (f * c) - a * (f * f)) by (nonlinear_arith);
    assert(h * (e * a - b * b) == a * (e * h) - b * (h * b)) by (nonlinear_arith);
    assert(b * (f * c - h * b) == b * (f * c) - b * (h * b)) by (nonlinear_arith);
}

proof fn lemma_spread(r: int, u: int, v: int, w: int, x: int, y: int, z: int)
    ensures
        r * (-u * x - v * y - w * z) == -((r * u) * x) - ((r * v) * y) - ((r * w) * z),
{
    let a = u * x;
    let b = v * y;
    let c = w * z;
    assert(-u * x == -a) by (nonlinear_arith)
        requires
            a == u * x,
    ;
    assert(r * (-a - b - c) == -(r * a) - r * b - r * c) by (nonlinear_arith);
    assert(r * (u * x) == (r * u) * x) by (nonlinear_arith);
    assert(r * (v * y) == (r * v) * y) by (nonlinear_arith);
    assert(r * (w * z) == (r * w) * z) by (nonlinear_arith);
}

/// A row times the negated product of a symmetric matrix and a vector.
proof fn lemma_row_product(
    r0: int,
    r1: int,
    r2: int,
    c00: int,
    c01: int,
    c02: int,
    c11: int,
    c12: int,
    c22: int,
    x: int,
    y: int,
    z: int,
)
    ensures
        r0 * (-c00 * x - c01 * y - c02 * z) + r1 * (-c01 * x - c11 * y - c12 * z) + r2 * (-c02 * x
            - c12 * y - c22 * z) == -((r0 * c00 + r1 * c01 + r2 * c02) * x) - ((r0 * c01 + r1 * c11
            + r2 * c12) * y) - ((r0 * c02 + r1 * c12 + r2 * c22) * z),
{
    lemma_spread(r0, c00, c01, c02, x, y, z);
    lemma_spread(r1, c01, c11, c12, x, y, z);
    lemma_spread(r2, c02, c12, c22, x, y, z);
    assert((r0 * c00 + r1 * c01 + r2 * c02) * x == (r0 * c00) * x + (r1 * c01) * x + (r2 * c02) * x)
        by (nonlinear_arith);
    assert((r0 * c01 + r1 * c11 + r2 * c12) * y == (r0 * c01) * y + (r1 * c11) * y + (r2 * c12) * y)
        by (nonlinear_arith);
    assert((r0 * c02 + r1 * c12 + r2 * c22) * z == (r0 * c02) * z + (r1 * c12) * z + (r2 * c22) * z)
        by (nonlinear_arith);
}

/// A quotient of two numbers that fit 31 binary digits, where the first is at most
/// eight digits longer, is the quotient in 4096ths, rounded toward zero.
pub proof fn lemma_guarded_quotient(numerator: i64, determinant: i64)
    requires
        -0x7fff_ffff <= numerator <= 0x7fff_ffff,
        -0x7fff_ffff <= determinant <= 0x7fff_ffff,
        determinant != 0,
        arith::abs(numerator as int) < 128 * arith::abs(determinant as int),
    ensures
        ({
            let q = guarded_q12_div_spec(numerator, determinant) as int;
            let magnitude = arith::abs(q) * arith::abs(determinant as int);
            &&& magnitude <= arith::abs(numerator as int) * 4096
            &&& arith::abs(numerator as int) * 4096 < magnitude + arith::abs(determinant as int)
            &&& q > 0 ==> (numerator > 0) == (determinant > 0)
            &&& q < 0 ==> (numerator > 0) != (determinant > 0)
        }),
{
    let n = arith::abs(numerator as int) as nat;
    let d = arith::abs(determinant as int) as nat;
    lemma_bit_length(n);
    lemma_bit_length(d);
    lemma_bit_length_fits(n);
    lemma_bit_length_fits(d);
    lemma_bit_length_gap(n, d);
    vstd::arithmetic::power2::lemma2_to64();
    assert(guard_shift(numerator as int, determinant as int) == 0);
    assert(numerator as int / 1 == numerator && determinant as int / 1 == determinant);
    let product = numerator * 4096;
    let m = n * 4096;
    let whole = m / d;
    vstd::arithmetic::div_mod::lemma_fundamental_div_mod(m as int, d as int);
    assert(d * whole == whole * d) by (nonlinear_arith);
    assert(whole < 0x8_0000) by (nonlinear_arith)
        requires
            whole == m / d,
            m == n * 4096,
            n < 128 * d,
            d > 0,
    ;
    lemma_signed_quotient(product, determinant as int);
}

/// Division toward zero goes by the magnitudes, and its sign by the signs.
proof fn lemma_signed_quotient(a: int, b: int)
    requires
        b != 0,
    ensures
        arith::abs(arith::trunc_div(a, b)) == arith::abs(a) / arith::abs(b),
        arith::trunc_div(a, b) > 0 ==> (a > 0) == (b > 0),
        arith::trunc_div(a, b) < 0 ==> (a > 0) != (b > 0),
{
    let m = arith::abs(a);
    let c = arith::abs(b);
    let q = m / c;
    assert(q >= 0) by (nonlinear_arith)
        requires
            q == m / c,
            m >= 0,
            c > 0,
    ;
    if b < 0 {
        assert(m / b == -q) by (nonlinear_arith)
            requires
                q == m / c,
                c == -b,
                b < 0,
                m >= 0,
        ;
    }
    if m == 0 {
        assert(q == 0) by (nonlinear_arith)
            requires
                q == m / c,
                m == 0,
                c > 0,
        ;
    }
}

proof fn lemma_bit_length_fits(m: nat)
    requires
        m <= 0x7fff_ffff,
    ensures
        bit_length(m) <= 31,
{
    reveal_with_fuel(bit_length, 33);
}

proof fn lemma_bit_length_ordered(n: nat, m: nat)
    requires
        n <= m,
    ensures
        bit_length(n) <= bit_length(m),
    decreases m,
{
    if n > 0 {
        lemma_bit_length_ordered(n / 2, m / 2);
    }
}

/// A number below 128 times another is at most seven digits longer.
proof fn lemma_bit_length_gap(n: nat, d: nat)
    requires
        d > 0,
        n < 128 * d,
    ensures
        bit_length(n) <= bit_length(d) + 7,
{
    lemma_bit_length_ordered(n, 128 * d);
    assert(bit_length(128 * d) == bit_length(64 * d) + 1);
    assert(bit_length(64 * d) == bit_length(32 * d) + 1);
    assert(bit_length(32 * d) == bit_length(16 * d) + 1);
    assert(bit_length(16 * d) == bit_length(8 * d) + 1);
    assert(bit_length(8 * d) == bit_length(4 * d) + 1);
    assert(bit_length(4 * d) == bit_length(2 * d) + 1);
    assert(bit_length(2 * d) == bit_length(d) + 1);
}

/// The derivatives of the differences: a gradient is positive where the responses
/// grow, a second derivative where they lie above the sample on average, and a
/// mixed one where they grow together.
pub proof fn lemma_derivatives(p: Seq<Seq<u16>>, d: Seq<Seq<i32>>, s: int, x: int, y: int)
    requires
        are_differences(d, p),
        refinable(x, y, s),
        -0x4000 <= difference_at(d, s, x, y) < 0x4000,
        derivatives_spec(p, s, x, y) is Ok,
    ensures
        ({
            let b = derivatives_spec(p, s, x, y)->Ok_0;
            let here = difference_at(d, s, x, y);
            &&& b.gx == 2 * (difference_at(d, s, x + 1, y) - difference_at(d, s, x - 1, y))
            &&& b.gy == 2 * (difference_at(d, s, x, y + 1) - difference_at(d, s, x, y - 1))
            &&& b.gs == 2 * (difference_at(d, s + 1, x, y) - difference_at(d, s - 1, x, y))
            &&& b.hxx == 4 * ((difference_at(d, s, x + 1, y) - here) - (here - difference_at(
                d,
                s,
                x - 1,
                y,
            )))
            &&& b.hyy == 4 * ((difference_at(d, s, x, y + 1) - here) - (here - difference_at(
                d,
                s,
                x,
                y - 1,
            )))
            &&& b.hss == 4 * ((difference_at(d, s + 1, x, y) - here) - (here - difference_at(
                d,
                s - 1,
                x,
                y,
            )))
            &&& b.hxy == (difference_at(d, s, x + 1, y + 1) - difference_at(d, s, x - 1, y + 1)) - (
            difference_at(d, s, x + 1, y - 1) - difference_at(d, s, x - 1, y - 1))
            &&& b.hxs == (difference_at(d, s + 1, x + 1, y) - difference_at(d, s + 1, x - 1, y)) - (
            difference_at(d, s - 1, x + 1, y) - difference_at(d, s - 1, x - 1, y))
            &&& b.hys == (difference_at(d, s + 1, x, y + 1) - difference_at(d, s + 1, x, y - 1)) - (
            difference_at(d, s - 1, x, y + 1) - difference_at(d, s - 1, x, y - 1))
        }),
{
    assert forall|ss: int, xx: int, yy: int|
        s - 1 <= ss <= s + 1 && x - 1 <= xx <= x + 1 && y - 1 <= yy <= y
            + 1 implies #[trigger] difference_at(d, ss, xx, yy) == dog(p, ss, xx, yy) by {
        assert(d[ss][yy * 80 + xx] == p[ss + 1][yy * 80 + xx] - p[ss][yy * 80 + xx]);
    }
    assert(difference_at(d, s, x, y) == dog(p, s, x, y));
    let twice = 2 * dog(p, s, x, y);
    assert((twice as i16) as int == twice);
}

/// Every accepted point leaves its pixel among the primary candidates, and the
/// first accepted point of a pixel is the one that stays.
pub proof fn lemma_primary_keeps_first(outcomes: Seq<RefinementOutcome>, n: nat, j: int)
    requires
        n <= outcomes.len(),
        0 <= j < n,
        outcomes[j] is Accepted,
        forall|i: int|
            0 <= i < j && (#[trigger] outcomes[i]) is Accepted ==> pixel_of(
                outcomes[i]->Accepted_0,
            ) != pixel_of(outcomes[j]->Accepted_0),
    ensures
        primary_prefix(outcomes, n).contains(outcomes[j]->Accepted_0),
    decreases n,
{
    let before = primary_prefix(outcomes, (n - 1) as nat);
    let after = primary_prefix(outcomes, n);
    if j < n - 1 {
        lemma_primary_keeps_first(outcomes, (n - 1) as nat, j);
        let k = choose|k: int| 0 <= k < before.len() && before[k] == outcomes[j]->Accepted_0;
        assert(after[k] == outcomes[j]->Accepted_0);
    } else {
        assert(!pixel_used(outcomes, n - 1, pixel_of(outcomes[j]->Accepted_0)));
        assert(after[before.len() as int] == outcomes[j]->Accepted_0);
    }
}

} // verus!
