//! GF3258 orientation estimation and orientation-dependent gradient preparation:
//! gradient angle and magnitude planes, ridge-direction smoothing, the ridge
//! orientation of a candidate, and the CORDIC primitives they share with the
//! descriptor and the matcher.
use vstd::prelude::*;

use crate::arith;
use crate::feature::detector;
use crate::feature::detector::RefinedExtremum;
use crate::feature::filter;
use crate::feature::{FeatureError, GF3258_HEIGHT, GF3258_PIXELS, GF3258_WIDTH};
use crate::text;

verus! {

pub const GF3258_GRADIENT_GAUSS_0: [i32; 9] = [84, 957, 5433, 15399, 21790, 15399, 5433, 957, 84];

pub const GF3258_GRADIENT_GAUSS_1: [i32; 7] = [139, 2672, 15742, 28430, 15742, 2672, 139];

/// Cumulative inverse CORDIC gain in Q16 after each rotation.
pub const GF3258_CORDIC_GAIN_INV_Q16: [i32; 13] = [
    0xb505,
    0xa1e9,
    0x9d13,
    0x9bdd,
    0x9b8f,
    0x9b7b,
    0x9b77,
    0x9b75,
    0x9b75,
    0x9b75,
    0x9b75,
    0x9b75,
    0x9b75,
];

/// `atan(2^-i)` in Q12 radians.
pub const GF3258_VECTOR_CORDIC_ATAN_Q12: [i16; 13] = [
    0x0c91,
    0x076b,
    0x03eb,
    0x01fd,
    0x0100,
    0x0080,
    0x0040,
    0x0020,
    0x0010,
    0x0008,
    0x0004,
    0x0002,
    0x0001,
];

pub const GF3258_GRADIENT_MAGNITUDE_MAX: i32 = 0x3ffff;

pub const GF3258_GRADIENT_PLANES_REVISION: &'static str = "gf3258-gradient-planes-v1";

pub const GF3258_C7310_REVISION: &'static str = "gf3258-c7310-v1";

/// Weights of the seven samples of a smoothing line.
pub const GF3258_C7310_WEIGHTS: [i32; 7] = [1, 2, 4, 8, 4, 2, 1];

/// The seven sample offsets of each of the twelve smoothing lines.
pub const GF3258_C7310_DIRECTION_OFFSETS: [[(i32, i32); 7]; 12] = [
    [(-3, 0), (-2, 0), (-1, 0), (0, 0), (1, 0), (2, 0), (3, 0)],
    [(-3, -1), (-2, -1), (-1, 0), (0, 0), (1, 0), (2, 1), (3, 1)],
    [(-3, -2), (-2, -1), (-1, -1), (0, 0), (1, 1), (2, 1), (3, 2)],
    [(-3, -3), (-2, -2), (-1, -1), (0, 0), (1, 1), (2, 2), (3, 3)],
    [(-2, -3), (-1, -2), (-1, -1), (0, 0), (1, 1), (1, 2), (2, 3)],
    [(-1, -3), (-1, -2), (0, -1), (0, 0), (0, 1), (1, 2), (1, 3)],
    [(0, -3), (0, -2), (0, -1), (0, 0), (0, 1), (0, 2), (0, 3)],
    [(-1, 3), (-1, 2), (0, 1), (0, 0), (0, -1), (1, -2), (1, -3)],
    [(-2, 3), (-1, 2), (-1, 1), (0, 0), (1, -1), (1, -2), (2, -3)],
    [(-3, 3), (-2, 2), (-1, 1), (0, 0), (1, -1), (2, -2), (3, -3)],
    [(-3, 2), (-2, 1), (-1, 1), (0, 0), (1, -1), (2, -1), (3, -2)],
    [(-3, 1), (-2, 1), (-1, 0), (0, 0), (1, 0), (2, -1), (3, -1)],
];

/// Radius of the clipped tensor-integration window.
pub const GF3258_C6D90_TENSOR_RADIUS: i32 = 6;

/// `(angle_q12 * factor) >> 20` is half the angle in degrees.
pub const GF3258_C6D90_HALF_DEGREE_FACTOR: i32 = 0x1ca6;

pub const GF3258_ORIENTATION_BINS: usize = 36;

pub const GF3258_ORIENTATION_HALF_BINS: usize = 18;

pub const GF3258_ORIENTATION_RADIUS_MAX: i32 = 32;

pub const GF3258_PI_Q12: i32 = 0x3244;

pub const GF3258_TAU_Q12: i32 = 0x6488;

pub const GF3258_ORIENTATION_BIN_Q9: i32 = 0x200;

pub const GF3258_ORIENTATION_TURN_Q9: i32 = 0x4800;

pub const GF3258_GAUSS_ZERO_CUTOFF: u32 = 0x0006_ee75;

pub const GF3258_GAUSS_MAGIC_THIRDS: u32 = 0xaaaa_aaab;

pub const GF3258_GAUSS_MAGIC_FIFTHS: u32 = 0xcccc_cccd;

/// Magnitude and angle planes of an 80x64 image.
#[derive(Debug, Clone, PartialEq, Eq)]
pub struct Gf3258GradientPlanes {
    pub magnitude_map_i32: Vec<i32>,
    /// Signed Q12 angles kept as 16-bit patterns.
    pub angle_map_u16: Vec<u16>,
}

/// A central difference in Q12, saturated at the 32-bit ends.
pub open spec fn gradient_difference_q12_spec(diff: i32) -> i32 {
    if diff >= 0x80000 {
        0x7fff_f000
    } else if diff < -0x80000 {
        i32::MIN
    } else {
        (diff * 0x1000) as i32
    }
}

pub fn gf3258_gradient_difference_to_q12(diff: i32) -> (q12: i32)
    ensures
        q12 == gradient_difference_q12_spec(diff),
{
    if diff >= 0x80000 {
        0x7fff_f000
    } else if diff < -0x80000 {
        i32::MIN
    } else {
        diff * 0x1000
    }
}

/// Two's-complement magnitude: the most negative value is its own magnitude.
pub open spec fn wrapping_abs_spec(value: i32) -> i32 {
    if value < 0 {
        0i32.wrapping_sub(value)
    } else {
        value
    }
}

fn wrapping_abs(value: i32) -> (r: i32)
    ensures
        r == wrapping_abs_spec(value),
{
    if value < 0 {
        0i32.wrapping_sub(value)
    } else {
        value
    }
}

/// State of the vectoring CORDIC: the vector being rotated onto the x axis and
/// the angle rotated so far.
#[derive(Clone, Copy)]
pub struct VectorCordic {
    pub y: i32,
    pub x: i32,
    pub theta: i16,
}

/// Rotation number `i` turns the vector toward the x axis by `atan(2^-i)`.
pub open spec fn vector_step(s: VectorCordic, i: int) -> VectorCordic {
    let y_shift = s.y >> (i as u32);
    let x_shift = s.x >> (i as u32);
    let turn = GF3258_VECTOR_CORDIC_ATAN_Q12@[i];
    if s.y < 1 {
        VectorCordic {
            y: s.y.wrapping_add(x_shift),
            x: s.x.wrapping_sub(y_shift),
            theta: s.theta.wrapping_sub(turn),
        }
    } else {
        VectorCordic {
            y: s.y.wrapping_sub(x_shift),
            x: s.x.wrapping_add(y_shift),
            theta: s.theta.wrapping_add(turn),
        }
    }
}

/// Rotations `i..=12`, cut short when the vector reaches the axis; the second
/// component is the last rotation made.
pub open spec fn vector_iterate(s: VectorCordic, i: int) -> (VectorCordic, int)
    decreases 13 - i,
{
    let t = vector_step(s, i);
    if t.y == 0 || i >= 12 {
        (t, i)
    } else {
        vector_iterate(t, i + 1)
    }
}

/// Signed Q12 `atan2(dy, dx)` as a bit pattern, with the gain-corrected length
/// of the vector. The zero vector has the angle `+pi`.
pub open spec fn cordic_atan2_spec(dy_q12: i32, dx_q12: i32) -> (u16, i32) {
    let y = wrapping_abs_spec(dy_q12);
    let x = wrapping_abs_spec(dx_q12);
    if y == 0 {
        (if dx_q12 < 1 { GF3258_PI_Q12 as u16 } else { 0u16 }, x)
    } else if x == 0 {
        (if dy_q12 < 1 { (-0x1922i16) as u16 } else { 0x1922u16 }, y)
    } else {
        let (end, last) = vector_iterate(VectorCordic { y, x, theta: 0 }, 0);
        let pi = GF3258_PI_Q12 as i16;
        let angle = if dx_q12 < 1 {
            if dy_q12 < 1 {
                end.theta.wrapping_sub(pi)
            } else {
                pi.wrapping_sub(end.theta)
            }
        } else if dy_q12 < 0 {
            0i16.wrapping_sub(end.theta)
        } else {
            end.theta
        };
        (
            angle as u16,
            ((GF3258_CORDIC_GAIN_INV_Q16@[last] * end.x + 0x8000) / 65536) as i32,
        )
    }
}

/// Vectoring CORDIC on signed Q12 components.
pub fn gf3258_cordic_atan2_magnitude_q12(dy_q12: i32, dx_q12: i32) -> (r: (u16, i32))
    ensures
        r == cordic_atan2_spec(dy_q12, dx_q12),
{
    let y: i32 = wrapping_abs(dy_q12);
    let x: i32 = wrapping_abs(dx_q12);
    if y == 0 {
        let angle: u16 = if dx_q12 < 1 {
            GF3258_PI_Q12 as u16
        } else {
            0
        };
        return (angle, x);
    }
    if x == 0 {
        let angle: u16 = if dy_q12 < 1 {
            (-0x1922i16) as u16
        } else {
            0x1922u16
        };
        return (angle, y);
    }
    let mut s: VectorCordic = VectorCordic { y, x, theta: 0 };
    let mut i: usize = 0;
    let ghost goal = vector_iterate(s, 0);
    loop
        invariant_except_break
            i <= 12,
            goal == vector_iterate(s, i as int),
        ensures
            i <= 12,
            goal == (s, i as int),
        decreases 12 - i,
    {
        let y_shift: i32 = s.y >> (i as u32);
        let x_shift: i32 = s.x >> (i as u32);
        let turn: i16 = GF3258_VECTOR_CORDIC_ATAN_Q12[i];
        if s.y < 1 {
            s = VectorCordic {
                y: s.y.wrapping_add(x_shift),
                x: s.x.wrapping_sub(y_shift),
                theta: s.theta.wrapping_sub(turn),
            };
        } else {
            s = VectorCordic {
                y: s.y.wrapping_sub(x_shift),
                x: s.x.wrapping_add(y_shift),
                theta: s.theta.wrapping_add(turn),
            };
        }
        if s.y == 0 || i >= 12 {
            break;
        }
        i = i + 1;
    }
    let pi: i16 = GF3258_PI_Q12 as i16;
    let angle: i16 = if dx_q12 < 1 {
        if dy_q12 < 1 {
            s.theta.wrapping_sub(pi)
        } else {
            pi.wrapping_sub(s.theta)
        }
    } else if dy_q12 < 0 {
        0i16.wrapping_sub(s.theta)
    } else {
        s.theta
    };
    let gain: i32 = GF3258_CORDIC_GAIN_INV_Q16[i];
    proof {
        assert(0 <= gain <= 0xb505);
        arith::lemma_mul_bound(gain as int, s.x as int, 0xb505, 0x8000_0000);
    }
    let product: i64 = (gain as i64) * (s.x as i64) + 0x8000;
    proof {
        arith::lemma_i64_shr_fixed(product);
    }
    (angle as u16, (product >> 16u64) as i32)
}

/// Sum of the rotation angles from number `i` on.
spec fn turns_from(i: int) -> int
    decreases 13 - i,
{
    if i >= 13 {
        0
    } else {
        GF3258_VECTOR_CORDIC_ATAN_Q12@[i] + turns_from(i + 1)
    }
}

proof fn lemma_turns()
    ensures
        turns_from(0) == 7139,
        turns_from(1) == 3922,
{
    reveal_with_fuel(turns_from, 14);
}

/// The accumulated angle moves by at most the remaining turns.
proof fn lemma_vector_theta(s: VectorCordic, i: int)
    requires
        0 <= i <= 12,
        -20000 <= s.theta - turns_from(i),
        s.theta + turns_from(i) <= 20000,
    ensures
        s.theta - turns_from(i) <= vector_iterate(s, i).0.theta <= s.theta + turns_from(i),
    decreases 13 - i,
{
    let t = vector_step(s, i);
    lemma_turns_nonnegative(i + 1);
    assert(0 <= GF3258_VECTOR_CORDIC_ATAN_Q12@[i]);
    assert(turns_from(i) == GF3258_VECTOR_CORDIC_ATAN_Q12@[i] + turns_from(i + 1));
    if t.y != 0 && i < 12 {
        lemma_vector_theta(t, i + 1);
    }
}

proof fn lemma_turns_nonnegative(i: int)
    requires
        0 <= i,
    ensures
        turns_from(i) >= 0,
    decreases 13 - i,
{
    if i < 13 {
        lemma_turns_nonnegative(i + 1);
        assert(0 <= GF3258_VECTOR_CORDIC_ATAN_Q12@[i]);
    }
}

/// Largest angle that still falls into an orientation bin.
pub const GF3258_BINNED_ANGLE_MAX_Q12: i32 = 13940;

/// Every CORDIC angle, read as a signed value, falls into an orientation bin.
pub proof fn lemma_cordic_angle_is_binned(dy_q12: i32, dx_q12: i32)
    ensures
        (cordic_atan2_spec(dy_q12, dx_q12).0 as i16) <= GF3258_BINNED_ANGLE_MAX_Q12,
{
    let y = wrapping_abs_spec(dy_q12);
    let x = wrapping_abs_spec(dx_q12);
    assert(0x3244u16 as i16 == 0x3244i16) by (bit_vector);
    assert(0x1922u16 as i16 == 0x1922i16) by (bit_vector);
    assert(0u16 as i16 == 0i16) by (bit_vector);
    lemma_i16_pattern(-0x1922i16);
    if y != 0 && x != 0 {
        let s = VectorCordic { y, x, theta: 0 };
        let t = vector_step(s, 0);
        lemma_turns();
        lemma_vector_theta(s, 0);
        if t.y != 0 {
            lemma_vector_theta(t, 1);
        }
        let theta = vector_iterate(s, 0).0.theta;
        let pi = GF3258_PI_Q12 as i16;
        lemma_i16_pattern(theta.wrapping_sub(pi));
        lemma_i16_pattern(pi.wrapping_sub(theta));
        lemma_i16_pattern(0i16.wrapping_sub(theta));
        lemma_i16_pattern(theta);
    }
}

/// A 16-bit pattern read back as signed is the value it was made from.
pub proof fn lemma_i16_pattern(v: i16)
    ensures
        ((v as u16) as i16) == v,
{
    assert(((v as u16) as i16) == v) by (bit_vector);
}

/// The opposite of a signed angle that is kept as a bit pattern.
pub open spec fn opposite_angle(angle: u16) -> u16 {
    0i16.wrapping_sub(angle as i16) as u16
}

/// The length of a vector does not depend on the signs of its components, and
/// turning it over at the x axis turns its angle over. Vectors on the x axis
/// have the angles zero and `pi`.
pub proof fn lemma_cordic_sign_symmetry(dy_q12: i32, dx_q12: i32)
    requires
        dy_q12 > i32::MIN,
        dx_q12 > i32::MIN,
    ensures
        ({
            let (angle, length) = cordic_atan2_spec(dy_q12, dx_q12);
            let (turned, turned_length) = cordic_atan2_spec((-dy_q12) as i32, dx_q12);
            &&& turned_length == length
            &&& cordic_atan2_spec(dy_q12, (-dx_q12) as i32).1 == length
            &&& cordic_atan2_spec((-dy_q12) as i32, (-dx_q12) as i32).1 == length
            &&& dy_q12 != 0 ==> turned == opposite_angle(angle)
        }),
        dx_q12 > 0 ==> cordic_atan2_spec(0, dx_q12) == (0u16, dx_q12),
        dx_q12 <= 0 ==> cordic_atan2_spec(0, dx_q12) == (GF3258_PI_Q12 as u16, (-dx_q12) as i32),
{
    let y = wrapping_abs_spec(dy_q12);
    let x = wrapping_abs_spec(dx_q12);
    assert(wrapping_abs_spec((-dy_q12) as i32) == y);
    assert(wrapping_abs_spec((-dx_q12) as i32) == x);
    lemma_i16_pattern(-0x1922i16);
    assert(0x1922u16 as i16 == 0x1922i16) by (bit_vector);
    assert(0x1922i16 as u16 == 0x1922u16) by (bit_vector);
    if y != 0 && x != 0 {
        let theta = vector_iterate(VectorCordic { y, x, theta: 0 }, 0).0.theta;
        let pi = GF3258_PI_Q12 as i16;
        lemma_i16_pattern(theta.wrapping_sub(pi));
        lemma_i16_pattern(pi.wrapping_sub(theta));
        lemma_i16_pattern(0i16.wrapping_sub(theta));
        lemma_i16_pattern(theta);
        assert(0i16.wrapping_sub(pi.wrapping_sub(theta)) == theta.wrapping_sub(pi));
        assert(0i16.wrapping_sub(theta.wrapping_sub(pi)) == pi.wrapping_sub(theta));
        assert(0i16.wrapping_sub(0i16.wrapping_sub(theta)) == theta);
    }
}

/// A pixel with all four neighbours.
pub open spec fn is_interior(i: int) -> bool {
    &&& 1 <= i % GF3258_WIDTH as int
    &&& i % (GF3258_WIDTH as int) < GF3258_WIDTH - 1
    &&& 1 <= i / GF3258_WIDTH as int
    &&& i / (GF3258_WIDTH as int) < GF3258_HEIGHT - 1
}

/// The once-filtered image, which the second filter reads.
pub open spec fn gradient_base(image: Seq<u8>) -> Seq<u16> {
    filter::separable_q16_spec(detector::widened_image(image), GF3258_GRADIENT_GAUSS_0@)
}

/// The sharpened image `10 * base - 9 * blurred` at pixel `i`.
pub open spec fn sharpened(image: Seq<u8>, i: int) -> int {
    let base = gradient_base(image);
    let blurred = filter::separable_q16_spec(base, GF3258_GRADIENT_GAUSS_1@);
    10 * base[i] - 9 * blurred[i]
}

/// Angle and magnitude of the gradient at pixel `i`; both are zero on the border.
pub open spec fn gradient_at(image: Seq<u8>, i: int) -> (u16, i32) {
    if is_interior(i) {
        let dx = sharpened(image, i + 1) - sharpened(image, i - 1);
        let dy = sharpened(image, i + GF3258_WIDTH) - sharpened(image, i - GF3258_WIDTH);
        let (angle, length) = cordic_atan2_spec(
            gradient_difference_q12_spec(dy as i32),
            gradient_difference_q12_spec(dx as i32),
        );
        let magnitude = length as int / 4096;
        (
            angle,
            if magnitude > GF3258_GRADIENT_MAGNITUDE_MAX {
                GF3258_GRADIENT_MAGNITUDE_MAX
            } else {
                magnitude as i32
            },
        )
    } else {
        (0u16, 0i32)
    }
}

pub open spec fn gradient_angles(image: Seq<u8>) -> Seq<u16> {
    Seq::new(GF3258_PIXELS as nat, |i: int| gradient_at(image, i).0)
}

pub open spec fn gradient_magnitudes(image: Seq<u8>) -> Seq<i32> {
    Seq::new(GF3258_PIXELS as nat, |i: int| gradient_at(image, i).1)
}

/// Every angle of a gradient plane falls into an orientation bin.
pub proof fn lemma_gradient_angles_are_binned(image: Seq<u8>, i: int)
    requires
        0 <= i < GF3258_PIXELS,
    ensures
        (gradient_angles(image)[i] as i16) <= GF3258_BINNED_ANGLE_MAX_Q12,
{
    assert(0u16 as i16 == 0i16) by (bit_vector);
    let dx = sharpened(image, i + 1) - sharpened(image, i - 1);
    let dy = sharpened(image, i + GF3258_WIDTH) - sharpened(image, i - GF3258_WIDTH);
    lemma_cordic_angle_is_binned(
        gradient_difference_q12_spec(dy as i32),
        gradient_difference_q12_spec(dx as i32),
    );
}

/// Builds the magnitude and angle planes of an 80x64 image.
pub fn gf3258_gradient_planes(image: &[u8]) -> (result: Result<Gf3258GradientPlanes, FeatureError>)
    ensures
        image@.len() != GF3258_PIXELS ==> result == Err::<Gf3258GradientPlanes, FeatureError>(
            FeatureError::UnexpectedPixelCount {
                expected: GF3258_PIXELS,
                actual: image@.len() as usize,
            },
        ),
        image@.len() == GF3258_PIXELS ==> {
            &&& result is Ok
            &&& result->Ok_0.magnitude_map_i32@ == gradient_magnitudes(image@)
            &&& result->Ok_0.angle_map_u16@ == gradient_angles(image@)
        },
{
    if image.len() != GF3258_PIXELS {
        return Err(
            FeatureError::UnexpectedPixelCount { expected: GF3258_PIXELS, actual: image.len() },
        );
    }
    let source: Vec<u16> = detector::widen_image(image);
    let base: Vec<u16> = filter::separable_q16_reflect101(
        source.as_slice(),
        GF3258_GRADIENT_GAUSS_0.as_slice(),
    );
    let blurred: Vec<u16> = filter::separable_q16_reflect101(
        base.as_slice(),
        GF3258_GRADIENT_GAUSS_1.as_slice(),
    );
    let mut work: Vec<i32> = Vec::with_capacity(GF3258_PIXELS);
    for i in 0..GF3258_PIXELS
        invariant
            base@.len() == GF3258_PIXELS,
            blurred@.len() == GF3258_PIXELS,
            base@ == gradient_base(image@),
            blurred@ == filter::separable_q16_spec(base@, GF3258_GRADIENT_GAUSS_1@),
            work@.len() == i,
            forall|j: int|
                0 <= j < i ==> (#[trigger] work@[j]) == sharpened(image@, j) && -589815 <= work@[j]
                    <= 655350,
    {
        work.push(blurred[i] as i32 + (base[i] as i32 - blurred[i] as i32) * 10);
    }
    let mut magnitude_map_i32: Vec<i32> = Vec::with_capacity(GF3258_PIXELS);
    let mut angle_map_u16: Vec<u16> = Vec::with_capacity(GF3258_PIXELS);
    for i in 0..GF3258_PIXELS
        invariant
            work@.len() == GF3258_PIXELS,
            forall|j: int|
                0 <= j < GF3258_PIXELS ==> (#[trigger] work@[j]) == sharpened(image@, j) && -589815
                    <= work@[j] <= 655350,
            magnitude_map_i32@.len() == i,
            angle_map_u16@.len() == i,
            forall|j: int| 0 <= j < i ==> magnitude_map_i32@[j] == gradient_at(image@, j).1,
            forall|j: int| 0 <= j < i ==> angle_map_u16@[j] == gradient_at(image@, j).0,
    {
        let x: usize = i % GF3258_WIDTH;
        let y: usize = i / GF3258_WIDTH;
        if 1 <= x && x < GF3258_WIDTH - 1 && 1 <= y && y < GF3258_HEIGHT - 1 {
            let dx: i32 = work[i + 1] - work[i - 1];
            let dy: i32 = work[i + GF3258_WIDTH] - work[i - GF3258_WIDTH];
            let dx_q12: i32 = gf3258_gradient_difference_to_q12(dx);
            let dy_q12: i32 = gf3258_gradient_difference_to_q12(dy);
            let (angle, length): (u16, i32) = gf3258_cordic_atan2_magnitude_q12(dy_q12, dx_q12);
            proof {
                arith::lemma_i64_shr_fixed(length as i64);
            }
            let magnitude: i32 = length >> 12u32;
            angle_map_u16.push(angle);
            if magnitude > GF3258_GRADIENT_MAGNITUDE_MAX {
                magnitude_map_i32.push(GF3258_GRADIENT_MAGNITUDE_MAX);
            } else {
                magnitude_map_i32.push(magnitude);
            }
        } else {
            angle_map_u16.push(0);
            magnitude_map_i32.push(0);
        }
    }
    proof {
        assert(magnitude_map_i32@ =~= gradient_magnitudes(image@));
        assert(angle_map_u16@ =~= gradient_angles(image@));
    }
    Ok(Gf3258GradientPlanes { magnitude_map_i32, angle_map_u16 })
}

/// Horizontal Sobel derivative; zero on the border.
pub open spec fn sobel_x(image: Seq<u8>, i: int) -> int {
    if is_interior(i) {
        image[i - GF3258_WIDTH + 1] + 2 * image[i + 1] + image[i + GF3258_WIDTH + 1]
            - image[i - GF3258_WIDTH - 1] - 2 * image[i - 1] - image[i + GF3258_WIDTH - 1]
    } else {
        0
    }
}

/// Vertical Sobel derivative; zero on the border.
pub open spec fn sobel_y(image: Seq<u8>, i: int) -> int {
    if is_interior(i) {
        image[i + GF3258_WIDTH - 1] + 2 * image[i + GF3258_WIDTH] + image[i + GF3258_WIDTH + 1]
            - image[i - GF3258_WIDTH - 1] - 2 * image[i - GF3258_WIDTH] - image[i - GF3258_WIDTH + 1]
    } else {
        0
    }
}

/// The tensor term `2 gx gy` at every pixel.
pub open spec fn tensor_cross(image: Seq<u8>) -> Seq<i32> {
    Seq::new(
        GF3258_PIXELS as nat,
        |i: int| (2 * (sobel_x(image, i) * sobel_y(image, i))) as i32,
    )
}

/// The tensor term `gx^2 - gy^2` at every pixel.
pub open spec fn tensor_diff(image: Seq<u8>) -> Seq<i32> {
    Seq::new(
        GF3258_PIXELS as nat,
        |i: int|
            (sobel_x(image, i) * sobel_x(image, i) - sobel_y(image, i) * sobel_y(image, i)) as i32,
    )
}

/// Sum of row `y` over the columns `x0..=x1`.
pub open spec fn row_sum(source: Seq<i32>, y: int, x0: int, x1: int) -> int
    decreases x1 - x0 + 1,
{
    if x1 < x0 {
        0
    } else {
        row_sum(source, y, x0, x1 - 1) + source[y * GF3258_WIDTH + x1]
    }
}

/// Sum over the rectangle with corners `(x0, y0)` and `(x1, y1)`, both included.
pub open spec fn window_sum(source: Seq<i32>, x0: int, y0: int, x1: int, y1: int) -> int
    decreases y1 - y0 + 1,
{
    if y1 < y0 {
        0
    } else {
        window_sum(source, x0, y0, x1, y1 - 1) + row_sum(source, y1, x0, x1)
    }
}

/// The integration window around coordinate `c`, clipped to `1..len`.
pub open spec fn window_low(c: int) -> int {
    if c - GF3258_C6D90_TENSOR_RADIUS < 1 {
        1
    } else {
        c - GF3258_C6D90_TENSOR_RADIUS
    }
}

pub open spec fn window_high(c: int, len: int) -> int {
    if c + GF3258_C6D90_TENSOR_RADIUS > len - 1 {
        len - 1
    } else {
        c + GF3258_C6D90_TENSOR_RADIUS
    }
}

/// The tensor integrated over the window around pixel `i`.
pub open spec fn tensor_around(source: Seq<i32>, i: int) -> int {
    let x = i % GF3258_WIDTH as int;
    let y = i / GF3258_WIDTH as int;
    window_sum(
        source,
        window_low(x),
        window_low(y),
        window_high(x, GF3258_WIDTH as int),
        window_high(y, GF3258_HEIGHT as int),
    )
}

/// Ridge direction in degrees for an integrated tensor. The difference takes
/// the role of `y` and the cross term that of `x`, which rotates the doubled
/// angle from gradient to ridge direction.
pub open spec fn ridge_direction(diff: i32, cross: i32) -> u8 {
    let signed = (cordic_atan2_spec(diff, cross).0 as i16) as int;
    let angle = if signed < 0 {
        signed + GF3258_TAU_Q12
    } else {
        signed
    };
    let half_degrees = (angle * GF3258_C6D90_HALF_DEGREE_FACTOR) / 0x10_0000;
    let rotated = if half_degrees - 0x87 < 1 {
        half_degrees + 0x2d
    } else {
        half_degrees - 0x87
    };
    (-0x4ci8).wrapping_sub((rotated as i32) as i8) as u8
}

/// Ridge direction of every pixel.
pub open spec fn direction_map_spec(image: Seq<u8>) -> Seq<u8> {
    Seq::new(
        GF3258_PIXELS as nat,
        |i: int|
            ridge_direction(
                tensor_around(tensor_diff(image), i) as i32,
                tensor_around(tensor_cross(image), i) as i32,
            ),
    )
}

/// The same 32-bit pattern.
#[verifier::opaque]
spec fn congruent(a: int, b: int) -> bool {
    (a - b) % 0x1_0000_0000 == 0
}

proof fn lemma_congruent_add(a: i32, b: i32, pa: int, pb: int)
    requires
        congruent(a as int, pa),
        congruent(b as int, pb),
    ensures
        congruent(a.wrapping_add(b) as int, pa + pb),
{
    reveal(congruent);
    let ka = (a - pa) / 0x1_0000_0000;
    let kb = (b - pb) / 0x1_0000_0000;
    assert(a - pa == 0x1_0000_0000 * ka);
    assert(b - pb == 0x1_0000_0000 * kb);
    let s = a.wrapping_add(b);
    assert(s - (pa + pb) == 0x1_0000_0000 * (ka + kb) || s - (pa + pb) == 0x1_0000_0000 * (ka + kb
        - 1) || s - (pa + pb) == 0x1_0000_0000 * (ka + kb + 1));
}

proof fn lemma_congruent_sub(a: i32, b: i32, pa: int, pb: int)
    requires
        congruent(a as int, pa),
        congruent(b as int, pb),
    ensures
        congruent(a.wrapping_sub(b) as int, pa - pb),
{
    reveal(congruent);
    let ka = (a - pa) / 0x1_0000_0000;
    let kb = (b - pb) / 0x1_0000_0000;
    assert(a - pa == 0x1_0000_0000 * ka);
    assert(b - pb == 0x1_0000_0000 * kb);
    let s = a.wrapping_sub(b);
    assert(s - (pa - pb) == 0x1_0000_0000 * (ka - kb) || s - (pa - pb) == 0x1_0000_0000 * (ka - kb
        - 1) || s - (pa - pb) == 0x1_0000_0000 * (ka - kb + 1));
}

/// A value with the same pattern as an integer that fits 32 bits is that integer.
proof fn lemma_congruent_exact(a: i32, p: int)
    requires
        congruent(a as int, p),
        -0x8000_0000 <= p <= 0x7fff_ffff,
    ensures
        a == p,
{
    reveal(congruent);
}

proof fn lemma_congruent_self(a: i32)
    ensures
        congruent(a as int, a as int),
{
    reveal(congruent);
}

/// Sum of row `y` over the columns `1..=x`.
spec fn row_prefix(source: Seq<i32>, y: int, x: int) -> int {
    row_sum(source, y, 1, x)
}

/// Sum over the rows `1..=y` and the columns `1..=x`.
spec fn area_prefix(source: Seq<i32>, y: int, x: int) -> int {
    window_sum(source, 1, 1, x, y)
}

proof fn lemma_area_recurrence(source: Seq<i32>, y: int, x: int)
    requires
        y >= 1,
        x >= 1,
    ensures
        area_prefix(source, y, x) == area_prefix(source, y - 1, x) + area_prefix(source, y, x - 1)
            - area_prefix(source, y - 1, x - 1) + source[y * GF3258_WIDTH + x],
{
}

proof fn lemma_area_edges(source: Seq<i32>, y: int)
    ensures
        area_prefix(source, y, 0) == 0,
    decreases y,
{
    if y >= 1 {
        lemma_area_edges(source, y - 1);
    }
}

proof fn lemma_row_sum_split(source: Seq<i32>, y: int, x0: int, x1: int)
    requires
        1 <= x0 <= x1 + 1,
    ensures
        row_sum(source, y, x0, x1) == row_prefix(source, y, x1) - row_prefix(source, y, x0 - 1),
    decreases x1 - x0 + 1,
{
    if x1 >= x0 {
        lemma_row_sum_split(source, y, x0, x1 - 1);
    }
}

proof fn lemma_window_sum_split(source: Seq<i32>, x0: int, y0: int, x1: int, y1: int)
    requires
        1 <= x0 <= x1 + 1,
        1 <= y0 <= y1 + 1,
    ensures
        window_sum(source, x0, y0, x1, y1) == area_prefix(source, y1, x1) + area_prefix(
            source,
            y0 - 1,
            x0 - 1,
        ) - area_prefix(source, y1, x0 - 1) - area_prefix(source, y0 - 1, x1),
    decreases y1 - y0 + 1,
{
    if y1 >= y0 {
        lemma_window_sum_split(source, x0, y0, x1, y1 - 1);
        lemma_row_sum_split(source, y1, x0, x1);
    }
}

spec fn tensor_bounded(source: Seq<i32>) -> bool {
    &&& source.len() == GF3258_PIXELS
    &&& forall|i: int| 0 <= i < GF3258_PIXELS ==> -2080800 <= #[trigger] source[i] <= 2080800
}

proof fn lemma_row_sum_bound(source: Seq<i32>, y: int, x0: int, x1: int)
    requires
        tensor_bounded(source),
        0 <= y < GF3258_HEIGHT,
        0 <= x0 <= x1 + 1,
        x1 < GF3258_WIDTH,
    ensures
        -2080800 * (x1 - x0 + 1) <= row_sum(source, y, x0, x1) <= 2080800 * (x1 - x0 + 1),
    decreases x1 - x0 + 1,
{
    if x1 >= x0 {
        lemma_row_sum_bound(source, y, x0, x1 - 1);
    }
}

proof fn lemma_window_sum_bound(source: Seq<i32>, x0: int, y0: int, x1: int, y1: int)
    requires
        tensor_bounded(source),
        0 <= x0 <= x1 + 1,
        x1 < GF3258_WIDTH,
        x1 - x0 <= 12,
        0 <= y0 <= y1 + 1,
        y1 < GF3258_HEIGHT,
    ensures
        -27050400 * (y1 - y0 + 1) <= window_sum(source, x0, y0, x1, y1) <= 27050400 * (y1 - y0 + 1),
    decreases y1 - y0 + 1,
{
    if y1 >= y0 {
        lemma_window_sum_bound(source, x0, y0, x1, y1 - 1);
        lemma_row_sum_bound(source, y1, x0, x1);
    }
}

/// A summed-area table in wrapping 32-bit arithmetic; its first row and column
/// stay zero.
fn integral_image(source: &Vec<i32>) -> (out: Vec<i32>)
    requires
        source@.len() == GF3258_PIXELS,
    ensures
        is_integral_of(out@, source@),
{
    let mut out: Vec<i32> = Vec::with_capacity(GF3258_PIXELS);
    for i in 0..GF3258_PIXELS
        invariant
            source@.len() == GF3258_PIXELS,
            out@.len() == i,
            forall|j: int|
                0 <= j < i ==> congruent(
                    #[trigger] out@[j] as int,
                    area_prefix(source@, j / GF3258_WIDTH as int, j % GF3258_WIDTH as int),
                ),
    {
        let x: usize = i % GF3258_WIDTH;
        let y: usize = i / GF3258_WIDTH;
        if x == 0 || y == 0 {
            proof {
                lemma_area_edges(source@, y as int);
                lemma_congruent_self(0);
            }
            out.push(0);
        } else {
            let above: i32 = out[i - GF3258_WIDTH];
            let left: i32 = out[i - 1];
            let corner: i32 = out[i - GF3258_WIDTH - 1];
            let sum: i32 = above.wrapping_add(left);
            let strip: i32 = sum.wrapping_sub(corner);
            let value: i32 = strip.wrapping_add(source[i]);
            proof {
                let j = i - GF3258_WIDTH;
                assert(j / GF3258_WIDTH as int == y - 1 && j % GF3258_WIDTH as int == x);
                let k = i - 1;
                assert(k / GF3258_WIDTH as int == y && k % GF3258_WIDTH as int == x - 1);
                let l = i - GF3258_WIDTH - 1;
                assert(l / GF3258_WIDTH as int == y - 1 && l % GF3258_WIDTH as int == x - 1);
                let pa = area_prefix(source@, y - 1, x as int);
                let pl = area_prefix(source@, y as int, x - 1);
                let pc = area_prefix(source@, y - 1, x - 1);
                assert(congruent(above as int, pa));
                assert(congruent(left as int, pl));
                assert(congruent(corner as int, pc));
                lemma_area_recurrence(source@, y as int, x as int);
                lemma_congruent_add(above, left, pa, pl);
                lemma_congruent_sub(sum, corner, pa + pl, pc);
                lemma_congruent_self(source@[i as int]);
                lemma_congruent_add(strip, source@[i as int], pa + pl - pc, source@[i as int] as int);
            }
            out.push(value);
        }
    }
    out
}

/// Four corners of a summed-area table give the sum of the rectangle between
/// them, when that sum fits 32 bits.
proof fn lemma_rectangle(a: i32, b: i32, c: i32, d: i32, pa: int, pb: int, pc: int, pd: int)
    requires
        congruent(a as int, pa),
        congruent(b as int, pb),
        congruent(c as int, pc),
        congruent(d as int, pd),
        -0x8000_0000 <= pa + pb - pc - pd <= 0x7fff_ffff,
    ensures
        a.wrapping_add(b).wrapping_sub(c).wrapping_sub(d) == pa + pb - pc - pd,
{
    lemma_congruent_add(a, b, pa, pb);
    let s = a.wrapping_add(b);
    lemma_congruent_sub(s, c, pa + pb, pc);
    let t = s.wrapping_sub(c);
    lemma_congruent_sub(t, d, pa + pb - pc, pd);
    lemma_congruent_exact(t.wrapping_sub(d), pa + pb - pc - pd);
}

/// A summed-area table of `source`.
spec fn is_integral_of(integral: Seq<i32>, source: Seq<i32>) -> bool {
    &&& integral.len() == GF3258_PIXELS
    &&& forall|j: int|
        0 <= j < GF3258_PIXELS ==> congruent(
            #[trigger] integral[j] as int,
            area_prefix(source, j / GF3258_WIDTH as int, j % GF3258_WIDTH as int),
        )
}

proof fn lemma_integral_at(integral: Seq<i32>, source: Seq<i32>, x: int, y: int)
    requires
        is_integral_of(integral, source),
        0 <= x < GF3258_WIDTH,
        0 <= y < GF3258_HEIGHT,
    ensures
        congruent(integral[y * GF3258_WIDTH + x] as int, area_prefix(source, y, x)),
{
    let j = y * GF3258_WIDTH + x;
    assert(j / GF3258_WIDTH as int == y && j % GF3258_WIDTH as int == x);
    assert(congruent(
        integral[j] as int,
        area_prefix(source, j / GF3258_WIDTH as int, j % GF3258_WIDTH as int),
    ));
}

/// Sum of `source` over a rectangle, from its summed-area table.
fn rectangle_sum(
    integral: &Vec<i32>,
    x0: usize,
    y0: usize,
    x1: usize,
    y1: usize,
    source: Ghost<Seq<i32>>,
) -> (sum: i32)
    requires
        is_integral_of(integral@, source@),
        tensor_bounded(source@),
        1 <= x0 <= x1 < GF3258_WIDTH,
        1 <= y0 <= y1 < GF3258_HEIGHT,
        x1 - x0 <= 12,
        y1 - y0 <= 12,
    ensures
        sum == window_sum(source@, x0 as int, y0 as int, x1 as int, y1 as int),
{
    let a: i32 = integral[y1 * GF3258_WIDTH + x1];
    let b: i32 = integral[(y0 - 1) * GF3258_WIDTH + (x0 - 1)];
    let c: i32 = integral[y1 * GF3258_WIDTH + (x0 - 1)];
    let d: i32 = integral[(y0 - 1) * GF3258_WIDTH + x1];
    proof {
        lemma_window_sum_split(source@, x0 as int, y0 as int, x1 as int, y1 as int);
        lemma_window_sum_bound(source@, x0 as int, y0 as int, x1 as int, y1 as int);
        lemma_integral_at(integral@, source@, x1 as int, y1 as int);
        lemma_integral_at(integral@, source@, x0 - 1, y0 - 1);
        lemma_integral_at(integral@, source@, x0 - 1, y1 as int);
        lemma_integral_at(integral@, source@, x1 as int, y0 - 1);
        lemma_rectangle(
            a,
            b,
            c,
            d,
            area_prefix(source@, y1 as int, x1 as int),
            area_prefix(source@, y0 - 1, x0 - 1),
            area_prefix(source@, y1 as int, x0 - 1),
            area_prefix(source@, y0 - 1, x1 as int),
        );
    }
    a.wrapping_add(b).wrapping_sub(c).wrapping_sub(d)
}

proof fn lemma_sobel_products(gx: int, gy: int)
    requires
        -1020 <= gx <= 1020,
        -1020 <= gy <= 1020,
    ensures
        -1040400 <= gx * gy <= 1040400,
        0 <= gx * gx <= 1040400,
        0 <= gy * gy <= 1040400,
{
    assert(-1040400 <= gx * gy <= 1040400 && 0 <= gx * gx <= 1040400 && 0 <= gy * gy <= 1040400)
        by (nonlinear_arith)
        requires
            -1020 <= gx <= 1020,
            -1020 <= gy <= 1020,
    ;
}

/// The Sobel derivatives at pixel `i`.
fn sobel(image: &[u8], i: usize) -> (r: (i32, i32))
    requires
        image@.len() == GF3258_PIXELS,
        i < GF3258_PIXELS,
    ensures
        r.0 == sobel_x(image@, i as int),
        r.1 == sobel_y(image@, i as int),
        -1020 <= r.0 <= 1020,
        -1020 <= r.1 <= 1020,
{
    let x: usize = i % GF3258_WIDTH;
    let y: usize = i / GF3258_WIDTH;
    if 1 <= x && x < GF3258_WIDTH - 1 && 1 <= y && y < GF3258_HEIGHT - 1 {
        let tl: i32 = image[i - GF3258_WIDTH - 1] as i32;
        let tc: i32 = image[i - GF3258_WIDTH] as i32;
        let tr: i32 = image[i - GF3258_WIDTH + 1] as i32;
        let ml: i32 = image[i - 1] as i32;
        let mr: i32 = image[i + 1] as i32;
        let bl: i32 = image[i + GF3258_WIDTH - 1] as i32;
        let bc: i32 = image[i + GF3258_WIDTH] as i32;
        let br: i32 = image[i + GF3258_WIDTH + 1] as i32;
        (tr + 2 * mr + br - tl - 2 * ml - bl, bl + 2 * bc + br - tl - 2 * tc - tr)
    } else {
        (0, 0)
    }
}

/// Ridge-direction byte of an integrated tensor.
fn direction_byte(diff: i32, cross: i32) -> (r: u8)
    ensures
        r == ridge_direction(diff, cross),
{
    let (angle_bits, _length): (u16, i32) = gf3258_cordic_atan2_magnitude_q12(diff, cross);
    let mut angle_q12: i32 = (angle_bits as i16) as i32;
    if angle_q12 < 0 {
        angle_q12 = angle_q12 + GF3258_TAU_Q12;
    }
    let scaled: i32 = angle_q12 * GF3258_C6D90_HALF_DEGREE_FACTOR;
    proof {
        vstd::arithmetic::power2::lemma2_to64();
        arith::lemma_i64_shr(scaled as i64, 20);
    }
    let half_degrees: i32 = scaled >> 20u32;
    let rotated: i32 = if half_degrees - 0x87 < 1 {
        half_degrees + 0x2d
    } else {
        half_degrees - 0x87
    };
    (-0x4ci8).wrapping_sub(rotated as i8) as u8
}

/// Ridge direction of every pixel of an 80x64 image: Sobel tensors, integrated
/// over a clipped 13x13 window.
pub fn gf3258_c6d90_direction_map(image: &[u8]) -> (result: Result<Vec<u8>, FeatureError>)
    ensures
        image@.len() != GF3258_PIXELS ==> result == Err::<Vec<u8>, FeatureError>(
            FeatureError::UnexpectedPixelCount {
                expected: GF3258_PIXELS,
                actual: image@.len() as usize,
            },
        ),
        image@.len() == GF3258_PIXELS ==> result is Ok && result->Ok_0@ == direction_map_spec(
            image@,
        ),
{
    if image.len() != GF3258_PIXELS {
        return Err(
            FeatureError::UnexpectedPixelCount { expected: GF3258_PIXELS, actual: image.len() },
        );
    }
    let mut cross: Vec<i32> = Vec::with_capacity(GF3258_PIXELS);
    let mut diff: Vec<i32> = Vec::with_capacity(GF3258_PIXELS);
    for i in 0..GF3258_PIXELS
        invariant
            image@.len() == GF3258_PIXELS,
            cross@.len() == i,
            diff@.len() == i,
            forall|j: int|
                0 <= j < i ==> (#[trigger] cross@[j]) == tensor_cross(image@)[j] && -2080800
                    <= cross@[j] <= 2080800,
            forall|j: int|
                0 <= j < i ==> (#[trigger] diff@[j]) == tensor_diff(image@)[j] && -2080800 <= diff@[j]
                    <= 2080800,
    {
        let (gx, gy): (i32, i32) = sobel(image, i);
        proof {
            lemma_sobel_products(gx as int, gy as int);
        }
        cross.push(2 * (gx * gy));
        diff.push(gx * gx - gy * gy);
    }
    proof {
        assert(cross@ =~= tensor_cross(image@));
        assert(diff@ =~= tensor_diff(image@));
    }
    let cross_integral: Vec<i32> = integral_image(&cross);
    let diff_integral: Vec<i32> = integral_image(&diff);
    let mut direction: Vec<u8> = Vec::with_capacity(GF3258_PIXELS);
    for i in 0..GF3258_PIXELS
        invariant
            tensor_bounded(cross@),
            tensor_bounded(diff@),
            cross@ == tensor_cross(image@),
            diff@ == tensor_diff(image@),
            is_integral_of(cross_integral@, cross@),
            is_integral_of(diff_integral@, diff@),
            direction@.len() == i,
            forall|j: int| 0 <= j < i ==> direction@[j] == direction_map_spec(image@)[j],
    {
        let x: usize = i % GF3258_WIDTH;
        let y: usize = i / GF3258_WIDTH;
        let x0: usize = if x < 7 {
            1
        } else {
            x - 6
        };
        let y0: usize = if y < 7 {
            1
        } else {
            y - 6
        };
        let x1: usize = if x + 6 > GF3258_WIDTH - 1 {
            GF3258_WIDTH - 1
        } else {
            x + 6
        };
        let y1: usize = if y + 6 > GF3258_HEIGHT - 1 {
            GF3258_HEIGHT - 1
        } else {
            y + 6
        };
        let local_diff: i32 = rectangle_sum(&diff_integral, x0, y0, x1, y1, Ghost(diff@));
        let local_cross: i32 = rectangle_sum(&cross_integral, x0, y0, x1, y1, Ghost(cross@));
        direction.push(direction_byte(local_diff, local_cross));
    }
    proof {
        assert(direction@ =~= direction_map_spec(image@));
    }
    Ok(direction)
}

/// The smoothing line that a ridge direction selects.
pub open spec fn line_class(selector: u8) -> int {
    let delta = selector.wrapping_sub(8);
    if delta < 0xa5 {
        delta as int / 15 + 1
    } else {
        0
    }
}

pub fn gf3258_c7310_line_class(selector: u8) -> (class: usize)
    ensures
        class == line_class(selector),
        class < 12,
{
    let delta: u8 = selector.wrapping_sub(8);
    if delta < 0xa5 {
        (delta / 15) as usize + 1
    } else {
        0
    }
}

/// Weighted sample sum and weight sum of the first `n` samples of line `class`
/// through `(x, y)`; samples outside the image are left out.
pub open spec fn line_sums(source: Seq<u8>, class: int, x: int, y: int, n: nat) -> (int, int)
    decreases n,
{
    if n == 0 {
        (0, 0)
    } else {
        let (weighted, weights) = line_sums(source, class, x, y, (n - 1) as nat);
        let (dx, dy) = GF3258_C7310_DIRECTION_OFFSETS@[class]@[n - 1];
        let sx = x + dx;
        let sy = y + dy;
        if 0 <= sx < GF3258_WIDTH && 0 <= sy < GF3258_HEIGHT {
            let weight = GF3258_C7310_WEIGHTS@[n - 1];
            (weighted + source[sy * GF3258_WIDTH + sx] * weight, weights + weight)
        } else {
            (weighted, weights)
        }
    }
}

/// Weighted average of the line through pixel `i` along its ridge direction.
pub open spec fn line_average(source: Seq<u8>, i: int) -> u8 {
    let (weighted, weights) = line_sums(
        source,
        line_class(direction_map_spec(source)[i]),
        i % GF3258_WIDTH as int,
        i / GF3258_WIDTH as int,
        7,
    );
    if weights == 0 {
        0xffu8
    } else {
        (weighted / weights) as u8
    }
}

/// The image smoothed along its ridges.
pub open spec fn gradient_source_spec(source: Seq<u8>) -> Seq<u8> {
    Seq::new(GF3258_PIXELS as nat, |i: int| line_average(source, i))
}

/// Smooths an 80x64 image along its ridges.
pub fn gf3258_c7310_gradient_source(source_u8: &[u8]) -> (result: Result<Vec<u8>, FeatureError>)
    ensures
        source_u8@.len() != GF3258_PIXELS ==> result == Err::<Vec<u8>, FeatureError>(
            FeatureError::UnexpectedPixelCount {
                expected: GF3258_PIXELS,
                actual: source_u8@.len() as usize,
            },
        ),
        source_u8@.len() == GF3258_PIXELS ==> result is Ok && result->Ok_0@ == gradient_source_spec(
            source_u8@,
        ),
{
    let direction: Vec<u8> = match gf3258_c6d90_direction_map(source_u8) {
        Ok(direction) => direction,
        Err(error) => {
            return Err(error);
        },
    };
    let mut output: Vec<u8> = Vec::with_capacity(GF3258_PIXELS);
    for i in 0..GF3258_PIXELS
        invariant
            source_u8@.len() == GF3258_PIXELS,
            direction@ == direction_map_spec(source_u8@),
            output@.len() == i,
            forall|j: int| 0 <= j < i ==> output@[j] == line_average(source_u8@, j),
    {
        let x: i32 = (i % GF3258_WIDTH) as i32;
        let y: i32 = (i / GF3258_WIDTH) as i32;
        let class: usize = gf3258_c7310_line_class(direction[i]);
        let mut weighted: i32 = 0;
        let mut weights: i32 = 0;
        for tap in 0..7usize
            invariant
                source_u8@.len() == GF3258_PIXELS,
                0 <= x < GF3258_WIDTH,
                0 <= y < GF3258_HEIGHT,
                class < 12,
                (weighted as int, weights as int) == line_sums(
                    source_u8@,
                    class as int,
                    x as int,
                    y as int,
                    tap as nat,
                ),
                0 <= weights <= 8 * tap,
                0 <= weighted <= 255 * weights,
        {
            let (dx, dy): (i32, i32) = GF3258_C7310_DIRECTION_OFFSETS[class][tap];
            proof {
                lemma_line_offsets(class as int, tap as int);
            }
            let sx: i32 = x + dx;
            let sy: i32 = y + dy;
            if sx >= 0 && sx < GF3258_WIDTH as i32 && sy >= 0 && sy < GF3258_HEIGHT as i32 {
                let weight: i32 = GF3258_C7310_WEIGHTS[tap];
                let sample: i32 = source_u8[sy as usize * GF3258_WIDTH + sx as usize] as i32;
                assert(1 <= weight <= 8);
                assert(0 <= sample * weight <= 255 * weight) by (nonlinear_arith)
                    requires
                        0 <= sample <= 255,
                        1 <= weight <= 8,
                ;
                weighted = weighted + sample * weight;
                weights = weights + weight;
            }
        }
        if weights == 0 {
            output.push(0xff);
        } else {
            output.push((weighted / weights) as u8);
        }
    }
    proof {
        assert(output@ =~= gradient_source_spec(source_u8@));
    }
    Ok(output)
}

proof fn lemma_line_offsets(class: int, tap: int)
    requires
        0 <= class < 12,
        0 <= tap < 7,
    ensures
        -3 <= GF3258_C7310_DIRECTION_OFFSETS@[class]@[tap].0 <= 3,
        -3 <= GF3258_C7310_DIRECTION_OFFSETS@[class]@[tap].1 <= 3,
{
}

/// A constant image is its own smoothing.
pub proof fn lemma_line_sums_constant(source: Seq<u8>, value: u8, class: int, x: int, y: int, n: nat)
    requires
        source.len() == GF3258_PIXELS,
        forall|i: int| 0 <= i < GF3258_PIXELS ==> source[i] == value,
        0 <= class < 12,
        0 <= x < GF3258_WIDTH,
        0 <= y < GF3258_HEIGHT,
        n <= 7,
    ensures
        line_sums(source, class, x, y, n).0 == value * line_sums(source, class, x, y, n).1,
        line_sums(source, class, x, y, n).1 >= (if n >= 4 { 8int } else { 0int }),
    decreases n,
{
    if n > 0 {
        lemma_line_sums_constant(source, value, class, x, y, (n - 1) as nat);
        let (weighted, weights) = line_sums(source, class, x, y, (n - 1) as nat);
        let weight = GF3258_C7310_WEIGHTS@[n - 1];
        assert(weight >= 1);
        assert(value * (weights + weight) == value * weights + value * weight) by (nonlinear_arith);
        if n == 4 {
            assert(GF3258_C7310_DIRECTION_OFFSETS@[class]@[3] == (0i32, 0i32));
        }
    }
}

/// Smoothing a constant image changes nothing.
pub proof fn lemma_constant_image_is_fixed(source: Seq<u8>, value: u8)
    requires
        source.len() == GF3258_PIXELS,
        forall|i: int| 0 <= i < GF3258_PIXELS ==> source[i] == value,
    ensures
        gradient_source_spec(source) == source,
{
    assert forall|i: int| 0 <= i < GF3258_PIXELS implies line_average(source, i) == value by {
        let class = line_class(direction_map_spec(source)[i]);
        let x = i % GF3258_WIDTH as int;
        let y = i / GF3258_WIDTH as int;
        lemma_line_sums_constant(source, value, class, x, y, 7);
        let weights = line_sums(source, class, x, y, 7).1;
        assert((value * weights) / weights == value) by (nonlinear_arith)
            requires
                weights > 0,
        ;
    }
    assert(gradient_source_spec(source) =~= source);
}

#[derive(Debug, Clone, PartialEq, Eq)]
pub enum Gf3258OrientationError {
    UnexpectedMapCount { map: &'static str, expected: usize, actual: usize },
    InvalidScale(i32),
}

/// Offsets from the candidate that its orientation window covers.
#[derive(Debug, Clone, Copy, PartialEq, Eq)]
pub struct Gf3258OrientationWindow {
    pub x_min_offset: i32,
    pub x_max_offset: i32,
    pub y_min_offset: i32,
    pub y_max_offset: i32,
}

/// Ridge orientation of one candidate, with the intermediate values.
#[derive(Debug, Clone, PartialEq, Eq)]
pub struct Gf3258OrientationResult {
    pub radius: i32,
    pub sigma_q16: i32,
    pub gaussian_arg: i32,
    pub window: Gf3258OrientationWindow,
    pub raw_histogram: [u32; 36],
    pub histogram: [u32; 36],
    pub earliest_max_bin: usize,
    pub returned_max_bin: usize,
    pub max_value: u32,
    pub interpolated_peak_q9: i32,
    pub full_angle_q12: i32,
    pub orientation_q12: u16,
}

/// Spatial weight for a scaled squared radius: a rational approximation of
/// `512 * exp(-z)`, zero beyond the cutoff.
pub open spec fn gaussian_weight_spec(z: int) -> int {
    if z > GF3258_GAUSS_ZERO_CUTOFF {
        0
    } else {
        let square = (z / 256) * (z / 256);
        let a = ((z * GF3258_GAUSS_MAGIC_THIRDS / 0x1_0000_0000 / 4 + 0x8000) / 256) * square / 32768;
        let fourth = (square / 256) * (square / 256) / 256;
        let c = (z * GF3258_GAUSS_MAGIC_FIFTHS / 0x1_0000_0000 / 4 + 0x1_0000) / 256;
        let b = fourth * c / 128;
        let denominator = z / 128 + a + 0x200 + b * GF3258_GAUSS_MAGIC_THIRDS / 0x1_0000_0000 / 16;
        (denominator / 2 + 0x4_0000) / denominator
    }
}

/// The Gaussian spatial weight of one scaled squared radius.
pub fn gaussian_weight_from_scaled_radius(z: u32) -> (w: u32)
    ensures
        w == gaussian_weight_spec(z as int),
        w <= 1024,
{
    if z > GF3258_GAUSS_ZERO_CUTOFF {
        return 0;
    }
    let high_thirds: u64 = (z as u64 * GF3258_GAUSS_MAGIC_THIRDS as u64) / 0x1_0000_0000;
    let z_div_256: u64 = (z / 256) as u64;
    proof {
        assert(0 <= z_div_256 * z_div_256 <= 1774 * 1774) by (nonlinear_arith)
            requires
                0 <= z_div_256 <= 1774,
        ;
    }
    let square: u64 = z_div_256 * z_div_256;
    let a_scale: u64 = (high_thirds / 4 + 0x8000) / 256;
    proof {
        assert(0 <= a_scale * square <= 425 * 3147076) by (nonlinear_arith)
            requires
                0 <= a_scale <= 425,
                0 <= square <= 3147076,
        ;
    }
    let a: u64 = a_scale * square / 32768;
    let fourth_root: u64 = square / 256;
    proof {
        assert(0 <= fourth_root * fourth_root <= 12294 * 12294) by (nonlinear_arith)
            requires
                0 <= fourth_root <= 12294,
        ;
    }
    let fourth: u64 = fourth_root * fourth_root / 256;
    proof {
        assert(0 <= z as u64 * GF3258_GAUSS_MAGIC_FIFTHS as u64 <= 0x6_ee75 * 0xcccc_cccd)
            by (nonlinear_arith)
            requires
                0 <= z <= 0x6_ee75,
                GF3258_GAUSS_MAGIC_FIFTHS == 0xcccc_cccd,
        ;
    }
    let high_fifths: u64 = (z as u64 * GF3258_GAUSS_MAGIC_FIFTHS as u64) / 0x1_0000_0000;
    let c: u64 = (high_fifths / 4 + 0x1_0000) / 256;
    proof {
        assert(0 <= fourth * c <= 590401 * 612) by (nonlinear_arith)
            requires
                0 <= fourth <= 590401,
                0 <= c <= 612,
        ;
    }
    let b: u64 = fourth * c / 128;
    let high_b_thirds: u64 = (b * GF3258_GAUSS_MAGIC_THIRDS as u64) / 0x1_0000_0000;
    let denominator: u64 = (z / 128) as u64 + a + 0x200 + high_b_thirds / 16;
    let numerator: u64 = denominator / 2 + 0x4_0000;
    let quotient: u64 = numerator / denominator;
    proof {
        assert(quotient <= 1024) by (nonlinear_arith)
            requires
                quotient == (denominator / 2 + 0x4_0000) / denominator as int,
                denominator >= 512,
        ;
    }
    quotient as u32
}

/// Spatial weight at offset `(x, y)`; it depends on the squared distance only.
pub open spec fn spatial_weight(gaussian_arg: u32, x: int, y: int) -> u32 {
    gaussian_weight_spec(((x * x + y * y) as u32).wrapping_mul(gaussian_arg) as int) as u32
}

/// A table of the spatial weights of the offsets `0..=radius` in both directions.
pub open spec fn is_weight_table(table: Seq<Vec<u32>>, radius: int, gaussian_arg: u32) -> bool {
    &&& table.len() == radius + 1
    &&& forall|y: int| 0 <= y <= radius ==> (#[trigger] table[y])@.len() == radius + 1
    &&& forall|y: int, x: int|
        0 <= y <= radius && 0 <= x <= radius ==> #[trigger] table[y]@[x] == spatial_weight(
            gaussian_arg,
            x,
            y,
        )
}

/// Weights of the offsets `0..=radius` in both directions, row by row.
pub(crate) fn gaussian_spatial_weight_table(radius: usize, gaussian_arg: u32) -> (out: Vec<Vec<u32>>)
    requires
        radius <= 0x7fff,
    ensures
        is_weight_table(out@, radius as int, gaussian_arg),
{
    let mut out: Vec<Vec<u32>> = Vec::new();
    for y in 0..radius + 1
        invariant
            radius <= 0x7fff,
            out@.len() == y,
            forall|b: int| 0 <= b < y ==> (#[trigger] out@[b])@.len() == radius + 1,
            forall|b: int, a: int|
                0 <= b < y && 0 <= a <= radius ==> #[trigger] out@[b]@[a] == spatial_weight(
                    gaussian_arg,
                    a,
                    b,
                ),
    {
        let mut row: Vec<u32> = Vec::new();
        for x in 0..radius + 1
            invariant
                radius <= 0x7fff,
                y <= radius,
                row@.len() == x,
                forall|a: int|
                    0 <= a < x ==> #[trigger] row@[a] == spatial_weight(
                        gaussian_arg,
                        a,
                        y as int,
                    ),
        {
            proof {
                assert(0 <= x * x <= 0x3fff_0001 && 0 <= y * y <= 0x3fff_0001) by (nonlinear_arith)
                    requires
                        0 <= x <= 0x7fff,
                        0 <= y <= 0x7fff,
                ;
            }
            let distance_sq: u32 = (x * x + y * y) as u32;
            let z: u32 = distance_sq.wrapping_mul(gaussian_arg);
            row.push(gaussian_weight_from_scaled_radius(z));
        }
        out.push(row);
    }
    out
}

/// Orientation bin of a signed Q12 angle: bins are 10 degrees wide, run against
/// the angle and start at `pi`; the one past the last wraps to zero.
pub open spec fn orientation_bin_spec(angle_q12: int) -> int {
    let bin = arith::trunc_div(
        GF3258_PI_Q12 + 36 * (GF3258_PI_Q12 - angle_q12),
        GF3258_TAU_Q12 as int,
    );
    if bin > 35 {
        0
    } else {
        bin
    }
}

fn orientation_bin_from_signed_q12(angle_q12: i32) -> (bin: usize)
    requires
        -0x8000 <= angle_q12 <= GF3258_BINNED_ANGLE_MAX_Q12,
    ensures
        bin == orientation_bin_spec(angle_q12 as int),
        bin < GF3258_ORIENTATION_BINS,
{
    let scaled: i32 = GF3258_PI_Q12 + (GF3258_PI_Q12 - angle_q12) * 36;
    let bin: i32 = scaled / GF3258_TAU_Q12;
    if bin > 35 {
        0
    } else {
        bin as usize
    }
}

/// The two planes around one candidate, with its spatial weighting.
pub struct OrientationField {
    pub magnitude: Seq<i32>,
    pub angle: Seq<u16>,
    pub x: int,
    pub y: int,
    pub gaussian_arg: u32,
}

impl OrientationField {
    pub open spec fn pixel(self, dx: int, dy: int) -> int {
        (self.y + dy) * GF3258_WIDTH + self.x + dx
    }

    /// Weighted magnitude that the sample at `(dx, dy)` contributes.
    pub open spec fn contribution(self, dx: int, dy: int) -> u32 {
        spatial_weight(self.gaussian_arg, arith::abs(dx), arith::abs(dy)).wrapping_mul(
            self.magnitude[self.pixel(dx, dy)] as u32,
        ) / 256
    }

    pub open spec fn bin(self, dx: int, dy: int) -> int {
        orientation_bin_spec((self.angle[self.pixel(dx, dy)] as i16) as int)
    }

    /// One sample counts in its bin and in the opposite one.
    pub open spec fn add_sample(self, h: Seq<u32>, dx: int, dy: int) -> Seq<u32> {
        let bin = self.bin(dx, dy);
        let mirror = (bin + GF3258_ORIENTATION_HALF_BINS) % GF3258_ORIENTATION_BINS as int;
        let c = self.contribution(dx, dy);
        h.update(bin, h[bin].wrapping_add(c)).update(mirror, h[mirror].wrapping_add(c))
    }

    /// Adds the samples `(x_min..=x_max, dy)` from left to right.
    pub open spec fn add_row(self, h: Seq<u32>, dy: int, x_min: int, x_max: int) -> Seq<u32>
        decreases x_max - x_min + 1,
    {
        if x_max < x_min {
            h
        } else {
            self.add_sample(self.add_row(h, dy, x_min, x_max - 1), x_max, dy)
        }
    }

    /// Adds the rows `y_min..=y_max` from top to bottom.
    pub open spec fn add_rows(
        self,
        h: Seq<u32>,
        y_min: int,
        y_max: int,
        x_min: int,
        x_max: int,
    ) -> Seq<u32>
        decreases y_max - y_min + 1,
    {
        if y_max < y_min {
            h
        } else {
            self.add_row(self.add_rows(h, y_min, y_max - 1, x_min, x_max), y_max, x_min, x_max)
        }
    }
}

/// Orientation radius for a scale: `round(18 * scale / 4)` samples, at most 32.
pub open spec fn orientation_radius(scale_q16: i32) -> int {
    let rounded = (scale_q16.wrapping_mul(18) + 0x2_0000) / 0x4_0000;
    if rounded > GF3258_ORIENTATION_RADIUS_MAX {
        GF3258_ORIENTATION_RADIUS_MAX as int
    } else {
        rounded
    }
}

/// Gaussian width for a scale: one and a half scales.
pub open spec fn orientation_sigma(scale_q16: i32) -> int {
    scale_q16.wrapping_mul(6) as int / 4
}

pub open spec fn orientation_gaussian_arg(scale_q16: i32) -> i32 {
    let sigma = orientation_sigma(scale_q16);
    (0x8000_0000_0000int / (sigma * sigma)) as i32
}

/// The window of radius `radius` kept inside the one-pixel derivative border.
pub open spec fn orientation_window(x: int, y: int, radius: int) -> Gf3258OrientationWindow {
    Gf3258OrientationWindow {
        x_min_offset: (if -radius > 1 - x { -radius } else { 1 - x }) as i32,
        x_max_offset: (if radius < GF3258_WIDTH - x - 2 { radius } else { GF3258_WIDTH - x - 2 }) as i32,
        y_min_offset: (if -radius > 1 - y { -radius } else { 1 - y }) as i32,
        y_max_offset: (if radius < GF3258_HEIGHT - y - 2 { radius } else { GF3258_HEIGHT - y - 2 }) as i32,
    }
}

/// The planes around a candidate.
pub open spec fn orientation_field(
    candidate: RefinedExtremum,
    magnitude: Seq<i32>,
    angle: Seq<u16>,
) -> OrientationField {
    OrientationField {
        magnitude,
        angle,
        x: (candidate.x as i32) as int,
        y: (candidate.y as i32) as int,
        gaussian_arg: orientation_gaussian_arg(candidate.scale_q16) as u32,
    }
}

pub open spec fn candidate_window(candidate: RefinedExtremum) -> Gf3258OrientationWindow {
    orientation_window(
        (candidate.x as i32) as int,
        (candidate.y as i32) as int,
        orientation_radius(candidate.scale_q16),
    )
}

/// Orientation histogram before smoothing.
pub open spec fn raw_histogram_spec(
    candidate: RefinedExtremum,
    magnitude: Seq<i32>,
    angle: Seq<u16>,
) -> Seq<u32> {
    let w = candidate_window(candidate);
    orientation_field(candidate, magnitude, angle).add_rows(
        Seq::new(36, |i: int| 0u32),
        w.y_min_offset as int,
        w.y_max_offset as int,
        w.x_min_offset as int,
        w.x_max_offset as int,
    )
}

/// `[1, 4, 6, 4, 1] / 16` smoothing of five neighbours in 32-bit arithmetic.
#[verifier::opaque]
pub open spec fn smooth_five(a: u32, b: u32, c: u32, d: u32, e: u32) -> u32 {
    a.wrapping_add(b.wrapping_mul(4)).wrapping_add(c.wrapping_mul(6)).wrapping_add(
        d.wrapping_mul(4),
    ).wrapping_add(e) / 16
}

/// One bin of the circularly smoothed histogram.
pub open spec fn smoothed_bin(raw: Seq<u32>, i: int) -> u32 {
    smooth_five(
        raw[(i + 34) % 36],
        raw[(i + 35) % 36],
        raw[i],
        raw[(i + 1) % 36],
        raw[(i + 2) % 36],
    )
}

pub open spec fn smoothed_histogram(raw: Seq<u32>) -> Seq<u32> {
    Seq::new(36, |i: int| smoothed_bin(raw, i))
}

/// Earliest position of the largest value among the first `n`.
pub open spec fn earliest_max(h: Seq<u32>, n: nat) -> int
    decreases n,
{
    if n <= 1 {
        0
    } else {
        let best = earliest_max(h, (n - 1) as nat);
        if h[n - 1] > h[best] {
            n - 1
        } else {
            best
        }
    }
}

/// Second difference of the histogram around a bin.
pub open spec fn peak_curvature(h: Seq<u32>, bin: int) -> int {
    h[(bin + 35) % 36] - 2 * h[bin] + h[(bin + 1) % 36]
}

/// Parabolic peak position around a bin, in Q9 bins, wrapped into one turn.
pub open spec fn interpolated_peak_spec(h: Seq<u32>, bin: int) -> i32 {
    let curvature = peak_curvature(h, bin);
    let delta = arith::trunc_div(
        (h[(bin + 35) % 36] - h[(bin + 1) % 36]) * 512 - curvature,
        2 * curvature,
    );
    let peak = ((bin * 512) as i32).wrapping_add(delta as i32);
    if peak < 0 {
        peak.wrapping_add(GF3258_ORIENTATION_TURN_Q9)
    } else if peak >= GF3258_ORIENTATION_TURN_Q9 {
        peak.wrapping_sub(GF3258_ORIENTATION_TURN_Q9)
    } else {
        peak
    }
}

/// Directed angle of a peak position.
pub open spec fn peak_angle(peak_q9: i32) -> int {
    arith::trunc_div(peak_q9.wrapping_mul(GF3258_TAU_Q12) as int, 36) / 512
}

/// Directed angle folded into the undirected interval.
pub open spec fn folded_angle(full_angle_q12: int) -> u16 {
    if full_angle_q12 - GF3258_PI_Q12 < 0 {
        full_angle_q12 as u16
    } else {
        (full_angle_q12 - GF3258_PI_Q12) as u16
    }
}

/// The fields of an orientation result for a candidate.
pub open spec fn is_orientation_of(
    r: Gf3258OrientationResult,
    candidate: RefinedExtremum,
    magnitude: Seq<i32>,
    angle: Seq<u16>,
) -> bool {
    &&& r.radius == orientation_radius(candidate.scale_q16)
    &&& r.sigma_q16 == orientation_sigma(candidate.scale_q16)
    &&& r.gaussian_arg == orientation_gaussian_arg(candidate.scale_q16)
    &&& r.window == candidate_window(candidate)
    &&& r.raw_histogram@ == raw_histogram_spec(candidate, magnitude, angle)
    &&& r.histogram@ == smoothed_histogram(r.raw_histogram@)
    &&& r.earliest_max_bin == earliest_max(r.histogram@, 36)
    &&& r.returned_max_bin == r.earliest_max_bin + GF3258_ORIENTATION_HALF_BINS
    &&& r.returned_max_bin < GF3258_ORIENTATION_BINS
    &&& r.max_value == r.histogram@[r.earliest_max_bin as int]
    &&& r.interpolated_peak_q9 == interpolated_peak_spec(
        r.histogram@,
        r.returned_max_bin as int,
    )
    &&& r.full_angle_q12 == peak_angle(r.interpolated_peak_q9)
    &&& r.orientation_q12 == folded_angle(r.full_angle_q12 as int)
}

/// Scales and positions for which the orientation window exists in 32-bit
/// arithmetic.
pub open spec fn orientation_window_defined(candidate: RefinedExtremum) -> bool {
    &&& 0 <= orientation_radius(candidate.scale_q16)
    &&& orientation_sigma(candidate.scale_q16) != 0
    &&& -0x7fff_ffaf <= (candidate.x as i32)
    &&& -0x7fff_ffaf <= (candidate.y as i32)
}

/// Every angle inside the window falls into a bin.
pub open spec fn window_angles_binned(candidate: RefinedExtremum, angle: Seq<u16>) -> bool {
    let w = candidate_window(candidate);
    let f = orientation_field(candidate, Seq::empty(), angle);
    forall|dx: int, dy: int|
        w.x_min_offset <= dx <= w.x_max_offset && w.y_min_offset <= dy <= w.y_max_offset
            ==> (#[trigger] angle[f.pixel(dx, dy)] as i16) <= GF3258_BINNED_ANGLE_MAX_Q12
}

/// The smoothed histogram has a peak with a nonzero curvature.
pub open spec fn orientation_peak_defined(
    candidate: RefinedExtremum,
    magnitude: Seq<i32>,
    angle: Seq<u16>,
) -> bool {
    let h = smoothed_histogram(raw_histogram_spec(candidate, magnitude, angle));
    peak_curvature(h, earliest_max(h, 36) + GF3258_ORIENTATION_HALF_BINS) != 0
}

/// A histogram whose two halves agree.
pub open spec fn half_turn_periodic(h: Seq<u32>) -> bool {
    &&& h.len() == 36
    &&& forall|i: int| 0 <= i < 18 ==> #[trigger] h[i] == h[i + 18]
}

/// Adding a sample keeps the two halves of the histogram equal.
pub proof fn lemma_add_sample_periodic(f: OrientationField, h: Seq<u32>, dx: int, dy: int)
    requires
        half_turn_periodic(h),
        0 <= f.bin(dx, dy) < 36,
    ensures
        half_turn_periodic(f.add_sample(h, dx, dy)),
{
    let bin = f.bin(dx, dy);
    if bin >= 18 {
        assert(h[bin - 18] == h[bin]);
    }
}

/// Smoothing keeps the two halves of the histogram equal.
pub proof fn lemma_smoothing_periodic(raw: Seq<u32>)
    requires
        half_turn_periodic(raw),
    ensures
        half_turn_periodic(smoothed_histogram(raw)),
{
    assert forall|i: int| 0 <= i < 18 implies #[trigger] smoothed_histogram(raw)[i]
        == smoothed_histogram(raw)[i + 18] by {
        assert(raw[i] == raw[i + 18]);
        let a = (i + 34) % 36;
        let b = (i + 35) % 36;
        let c = i + 1;
        let d = i + 2;
        if a < 18 {
            assert(raw[a] == raw[a + 18]);
        } else {
            assert(raw[a - 18] == raw[a]);
        }
        if b < 18 {
            assert(raw[b] == raw[b + 18]);
        } else {
            assert(raw[b - 18] == raw[b]);
        }
        if c < 18 {
            assert(raw[c] == raw[c + 18]);
        } else {
            assert(raw[0] == raw[18]);
        }
        if d < 18 {
            assert(raw[d] == raw[d + 18]);
        } else {
            assert(raw[d - 18] == raw[d]);
        }
    }
}

/// The earliest maximum among the first `n` values bounds all of them.
pub proof fn lemma_earliest_max(h: Seq<u32>, n: nat)
    requires
        1 <= n <= h.len(),
    ensures
        0 <= earliest_max(h, n) < n,
        forall|j: int| 0 <= j < n ==> #[trigger] h[j] <= h[earliest_max(h, n)],
        forall|j: int| 0 <= j < earliest_max(h, n) ==> #[trigger] h[j] < h[earliest_max(h, n)],
    decreases n,
{
    if n > 1 {
        lemma_earliest_max(h, (n - 1) as nat);
    }
}

/// The peak of a histogram with equal halves lies in the first half.
pub proof fn lemma_periodic_peak_in_first_half(h: Seq<u32>)
    requires
        half_turn_periodic(h),
    ensures
        0 <= earliest_max(h, 36) < 18,
{
    lemma_earliest_max(h, 36);
    let m = earliest_max(h, 36);
    if m >= 18 {
        assert(h[m - 18] == h[m]);
    }
}

fn smooth_orientation_histogram(raw: &[u32; 36]) -> (out: [u32; 36])
    ensures
        out@ == smoothed_histogram(raw@),
{
    let mut out: [u32; 36] = [0u32;36];
    for i in 0..36usize
        invariant
            forall|j: int| 0 <= j < i ==> out@[j] == smoothed_bin(raw@, j),
    {
        let sum: u32 = raw[(i + 34) % 36].wrapping_add(raw[(i + 35) % 36].wrapping_mul(4)).wrapping_add(
            raw[i].wrapping_mul(6),
        ).wrapping_add(raw[(i + 1) % 36].wrapping_mul(4)).wrapping_add(raw[(i + 2) % 36]);
        proof {
            reveal(smooth_five);
        }
        out[i] = sum / 16;
    }
    proof {
        assert(out@ =~= smoothed_histogram(raw@));
    }
    out
}

/// Parabolic peak position around a bin, in Q9 bins.
pub fn interpolate_orientation_peak_q9(histogram: &[u32; 36], bin: usize) -> (peak_q9: i32)
    requires
        bin < GF3258_ORIENTATION_BINS,
        peak_curvature(histogram@, bin as int) != 0,
    ensures
        peak_q9 == interpolated_peak_spec(histogram@, bin as int),
{
    let prev: i64 = histogram[(bin + 35) % 36] as i64;
    let current: i64 = histogram[bin] as i64;
    let next: i64 = histogram[(bin + 1) % 36] as i64;
    let curvature: i64 = prev - 2 * current + next;
    let numerator: i64 = (prev - next) * 512 - curvature;
    let denominator: i64 = 2 * curvature;
    proof {
        arith::lemma_trunc_div_bound(numerator as int, denominator as int);
    }
    let delta: i64 = numerator / denominator;
    let peak_q9: i32 = (bin as i32 * 512).wrapping_add(delta as i32);
    if peak_q9 < 0 {
        peak_q9.wrapping_add(GF3258_ORIENTATION_TURN_Q9)
    } else if peak_q9 >= GF3258_ORIENTATION_TURN_Q9 {
        peak_q9.wrapping_sub(GF3258_ORIENTATION_TURN_Q9)
    } else {
        peak_q9
    }
}

/// Accumulates the orientation histogram over a window.
fn accumulate_histogram(
    magnitude_map_i32: &[i32],
    angle_map_u16: &[u16],
    x: i32,
    y: i32,
    radius: i32,
    gaussian_arg: u32,
    window: Gf3258OrientationWindow,
) -> (raw: [u32; 36])
    requires
        magnitude_map_i32@.len() == GF3258_PIXELS,
        angle_map_u16@.len() == GF3258_PIXELS,
        0 <= radius <= 32,
        -0x7fff_ffaf <= x,
        -0x7fff_ffaf <= y,
        window == orientation_window(x as int, y as int, radius as int),
        forall|dx: int, dy: int|
            window.x_min_offset <= dx <= window.x_max_offset && window.y_min_offset <= dy
                <= window.y_max_offset ==> (#[trigger] angle_map_u16@[(y + dy) * GF3258_WIDTH + x
                + dx] as i16) <= GF3258_BINNED_ANGLE_MAX_Q12,
    ensures
        raw@ == (OrientationField {
            magnitude: magnitude_map_i32@,
            angle: angle_map_u16@,
            x: x as int,
            y: y as int,
            gaussian_arg,
        }).add_rows(
            Seq::new(36, |i: int| 0u32),
            window.y_min_offset as int,
            window.y_max_offset as int,
            window.x_min_offset as int,
            window.x_max_offset as int,
        ),
        half_turn_periodic(raw@),
{
    let ghost f = OrientationField {
        magnitude: magnitude_map_i32@,
        angle: angle_map_u16@,
        x: x as int,
        y: y as int,
        gaussian_arg,
    };
    let weights: Vec<Vec<u32>> = gaussian_spatial_weight_table(radius as usize, gaussian_arg);
    let mut raw: [u32; 36] = [0u32;36];
    let ghost zero = Seq::new(36, |i: int| 0u32);
    proof {
        assert(raw@ =~= zero);
    }
    let ghost x_min = window.x_min_offset as int;
    let ghost x_max = window.x_max_offset as int;
    let ghost y_min = window.y_min_offset as int;
    let mut dy: i32 = window.y_min_offset;
    while dy <= window.y_max_offset
        invariant
            magnitude_map_i32@.len() == GF3258_PIXELS,
            angle_map_u16@.len() == GF3258_PIXELS,
            0 <= radius <= 32,
            -0x7fff_ffaf <= x,
            -0x7fff_ffaf <= y,
            window == orientation_window(x as int, y as int, radius as int),
            forall|dx: int, dy: int|
                window.x_min_offset <= dx <= window.x_max_offset && window.y_min_offset <= dy
                    <= window.y_max_offset ==> (#[trigger] angle_map_u16@[(y + dy) * GF3258_WIDTH
                    + x + dx] as i16) <= GF3258_BINNED_ANGLE_MAX_Q12,
            is_weight_table(weights@, radius as int, gaussian_arg),
            f == (OrientationField {
                magnitude: magnitude_map_i32@,
                angle: angle_map_u16@,
                x: x as int,
                y: y as int,
                gaussian_arg,
            }),
            x_min == window.x_min_offset,
            x_max == window.x_max_offset,
            y_min == window.y_min_offset,
            y_min <= dy,
            y_min <= window.y_max_offset ==> dy <= window.y_max_offset + 1,
            y_min > window.y_max_offset ==> dy == y_min,
            half_turn_periodic(raw@),
            raw@ == f.add_rows(zero, y_min, dy - 1, x_min, x_max),
        decreases window.y_max_offset + 1 - dy,
    {
        let ghost row_start = raw@;
        let mut dx: i32 = window.x_min_offset;
        while dx <= window.x_max_offset
            invariant
                magnitude_map_i32@.len() == GF3258_PIXELS,
                angle_map_u16@.len() == GF3258_PIXELS,
                0 <= radius <= 32,
                -0x7fff_ffaf <= x,
                -0x7fff_ffaf <= y,
                window == orientation_window(x as int, y as int, radius as int),
                forall|dx: int, dy: int|
                    window.x_min_offset <= dx <= window.x_max_offset && window.y_min_offset <= dy
                        <= window.y_max_offset ==> (#[trigger] angle_map_u16@[(y + dy)
                        * GF3258_WIDTH + x + dx] as i16) <= GF3258_BINNED_ANGLE_MAX_Q12,
                is_weight_table(weights@, radius as int, gaussian_arg),
                f == (OrientationField {
                    magnitude: magnitude_map_i32@,
                    angle: angle_map_u16@,
                    x: x as int,
                    y: y as int,
                    gaussian_arg,
                }),
                x_min == window.x_min_offset,
                x_max == window.x_max_offset,
                window.y_min_offset <= dy <= window.y_max_offset,
                x_min <= dx,
                x_min <= x_max ==> dx <= x_max + 1,
                x_min > x_max ==> dx == x_min,
                half_turn_periodic(raw@),
                raw@ == f.add_row(row_start, dy as int, x_min, dx - 1),
            decreases window.x_max_offset + 1 - dx,
        {
            let ay: usize = if dy < 0 {
                (-dy) as usize
            } else {
                dy as usize
            };
            let ax: usize = if dx < 0 {
                (-dx) as usize
            } else {
                dx as usize
            };
            let pixel: usize = (y + dy) as usize * GF3258_WIDTH + (x + dx) as usize;
            proof {
                assert(weights@[ay as int]@[ax as int] == spatial_weight(
                    gaussian_arg,
                    ax as int,
                    ay as int,
                ));
                assert(pixel == f.pixel(dx as int, dy as int));
                assert((angle_map_u16@[(y + dy) * GF3258_WIDTH + x + dx] as i16)
                    <= GF3258_BINNED_ANGLE_MAX_Q12);
            }
            let weight: u32 = weights[ay][ax];
            let magnitude: u32 = magnitude_map_i32[pixel] as u32;
            let contribution: u32 = weight.wrapping_mul(magnitude) / 256;
            let signed_angle: i32 = (angle_map_u16[pixel] as i16) as i32;
            let bin: usize = orientation_bin_from_signed_q12(signed_angle);
            let mirror: usize = (bin + GF3258_ORIENTATION_HALF_BINS) % GF3258_ORIENTATION_BINS;
            let ghost before = raw@;
            proof {
                lemma_add_sample_periodic(f, before, dx as int, dy as int);
            }
            let own: u32 = raw[bin].wrapping_add(contribution);
            let opposite: u32 = raw[mirror].wrapping_add(contribution);
            raw[bin] = own;
            raw[mirror] = opposite;
            proof {
                assert(raw@ =~= f.add_sample(before, dx as int, dy as int));
            }
            dx = dx + 1;
        }
        proof {
            if x_min > x_max {
                assert(f.add_row(row_start, dy as int, x_min, x_max) == row_start);
            }
        }
        dy = dy + 1;
    }
    proof {
        if y_min > window.y_max_offset {
            assert(f.add_rows(zero, y_min, window.y_max_offset as int, x_min, x_max) == zero);
        }
    }
    raw
}

/// The folded angle of a peak lies in the undirected interval.
proof fn lemma_peak_angle_range(h: Seq<u32>)
    requires
        half_turn_periodic(h),
        peak_curvature(h, earliest_max(h, 36) + 18) != 0,
    ensures
        folded_angle(peak_angle(interpolated_peak_spec(h, earliest_max(h, 36) + 18)))
            < GF3258_PI_Q12,
{
    lemma_periodic_peak_in_first_half(h);
    lemma_earliest_max(h, 36);
    let m = earliest_max(h, 36);
    let bin = m + 18;
    assert(h[m] == h[bin]);
    let prev = h[(bin + 35) % 36] as int;
    let next = h[(bin + 1) % 36] as int;
    let current = h[bin] as int;
    assert(prev <= current);
    assert(next <= current);
    let curvature = prev - 2 * current + next;
    let numerator = (prev - next) * 512 - curvature;
    let q = arith::trunc_div(numerator, 2 * curvature);
    assert(-257 <= q <= 257) by {
        let c = -curvature;
        assert(-513 * c <= numerator <= 513 * c);
        if numerator >= 0 {
            assert(-257 <= q <= 0) by (nonlinear_arith)
                requires
                    q == numerator / (-2 * c),
                    0 <= numerator <= 513 * c,
                    c > 0,
            ;
        } else {
            assert(0 <= q <= 257) by (nonlinear_arith)
                requires
                    q == -((-numerator) / (-2 * c)),
                    0 < -numerator <= 513 * c,
                    c > 0,
            ;
        }
    }
    let peak = interpolated_peak_spec(h, bin);
    assert(peak == bin * 512 + q);
    assert(0 <= peak * 25736 <= 0x7fff_ffff);
    assert(peak.wrapping_mul(GF3258_TAU_Q12) == peak * 25736);
}

/// Ridge orientation of a candidate, unless its histogram is flat around the
/// peak.
pub fn gf3258_orientation_unless_flat(
    candidate: &RefinedExtremum,
    magnitude_map_i32: &[i32],
    angle_map_u16: &[u16],
) -> (result: Option<Gf3258OrientationResult>)
    requires
        magnitude_map_i32@.len() == GF3258_PIXELS,
        angle_map_u16@.len() == GF3258_PIXELS,
        candidate.scale_q16 > 0,
        orientation_window_defined(*candidate),
        window_angles_binned(*candidate, angle_map_u16@),
    ensures
        result is Some == orientation_peak_defined(
            *candidate,
            magnitude_map_i32@,
            angle_map_u16@,
        ),
        result is Some ==> is_orientation_of(
            result->Some_0,
            *candidate,
            magnitude_map_i32@,
            angle_map_u16@,
        ) && result->Some_0.orientation_q12 < GF3258_PI_Q12,
{
    let x: i32 = candidate.x as i32;
    let y: i32 = candidate.y as i32;
    let t: i32 = candidate.scale_q16.wrapping_mul(18);
    let rounded: i64 = (t as i64 + 0x2_0000) / 0x4_0000;
    let radius: i32 = if rounded > GF3258_ORIENTATION_RADIUS_MAX as i64 {
        GF3258_ORIENTATION_RADIUS_MAX
    } else {
        rounded as i32
    };
    let six: i32 = candidate.scale_q16.wrapping_mul(6);
    proof {
        arith::lemma_i64_shr_fixed(six as i64);
    }
    let sigma_q16: i32 = six >> 2u32;
    proof {
        arith::lemma_mul_bound(sigma_q16 as int, sigma_q16 as int, 0x8000_0000, 0x8000_0000);
        assert(sigma_q16 * sigma_q16 > 0) by (nonlinear_arith)
            requires
                sigma_q16 != 0,
        ;
    }
    let sigma_sq: i64 = (sigma_q16 as i64) * (sigma_q16 as i64);
    proof {
        arith::lemma_trunc_div_bound(0x8000_0000_0000, sigma_sq as int);
    }
    let gaussian_arg: i32 = (0x8000_0000_0000i64 / sigma_sq) as i32;
    let window: Gf3258OrientationWindow = Gf3258OrientationWindow {
        x_min_offset: if -radius > 1 - x {
            -radius
        } else {
            1 - x
        },
        x_max_offset: if radius < GF3258_WIDTH as i32 - x - 2 {
            radius
        } else {
            GF3258_WIDTH as i32 - x - 2
        },
        y_min_offset: if -radius > 1 - y {
            -radius
        } else {
            1 - y
        },
        y_max_offset: if radius < GF3258_HEIGHT as i32 - y - 2 {
            radius
        } else {
            GF3258_HEIGHT as i32 - y - 2
        },
    };
    proof {
        let f = orientation_field(*candidate, Seq::empty(), angle_map_u16@);
        assert forall|dx: int, dy: int|
            window.x_min_offset <= dx <= window.x_max_offset && window.y_min_offset <= dy
                <= window.y_max_offset implies (#[trigger] angle_map_u16@[(y + dy) * GF3258_WIDTH
            + x + dx] as i16) <= GF3258_BINNED_ANGLE_MAX_Q12 by {
            assert(f.pixel(dx, dy) == (y + dy) * GF3258_WIDTH + x + dx);
            assert((angle_map_u16@[f.pixel(dx, dy)] as i16) <= GF3258_BINNED_ANGLE_MAX_Q12);
        }
    }
    let raw_histogram: [u32; 36] = accumulate_histogram(
        magnitude_map_i32,
        angle_map_u16,
        x,
        y,
        radius,
        gaussian_arg as u32,
        window,
    );
    let histogram: [u32; 36] = smooth_orientation_histogram(&raw_histogram);
    let mut earliest_max_bin: usize = 0;
    for bin in 1..36usize
        invariant
            earliest_max_bin == earliest_max(histogram@, bin as nat),
            earliest_max_bin < bin,
    {
        if histogram[bin] > histogram[earliest_max_bin] {
            earliest_max_bin = bin;
        }
    }
    let max_value: u32 = histogram[earliest_max_bin];
    proof {
        lemma_smoothing_periodic(raw_histogram@);
        lemma_periodic_peak_in_first_half(histogram@);
    }
    let returned_max_bin: usize = earliest_max_bin + GF3258_ORIENTATION_HALF_BINS;
    let next: i64 = histogram[(returned_max_bin + 1) % 36] as i64;
    let prev: i64 = histogram[(returned_max_bin + 35) % 36] as i64;
    if prev - 2 * (histogram[returned_max_bin] as i64) + next == 0 {
        return None;
    }
    proof {
        lemma_peak_angle_range(histogram@);
    }
    let interpolated_peak_q9: i32 = interpolate_orientation_peak_q9(&histogram, returned_max_bin);
    let angle_product: i32 = interpolated_peak_q9.wrapping_mul(GF3258_TAU_Q12);
    let quotient: i32 = angle_product / 36;
    proof {
        arith::lemma_i64_shr_fixed(quotient as i64);
    }
    let full_angle_q12: i32 = quotient >> 9u32;
    let shifted: i32 = full_angle_q12 - GF3258_PI_Q12;
    let orientation_q12: u16 = if shifted < 0 {
        full_angle_q12 as u16
    } else {
        shifted as u16
    };
    Some(
        Gf3258OrientationResult {
            radius,
            sigma_q16,
            gaussian_arg,
            window,
            raw_histogram,
            histogram,
            earliest_max_bin,
            returned_max_bin,
            max_value,
            interpolated_peak_q9,
            full_angle_q12,
            orientation_q12,
        },
    )
}

/// Ridge orientation of a candidate from the magnitude and angle planes.
pub fn gf3258_primary_orientation(
    candidate: &RefinedExtremum,
    magnitude_map_i32: &[i32],
    angle_map_u16: &[u16],
) -> (result: Result<Gf3258OrientationResult, Gf3258OrientationError>)
    requires
        magnitude_map_i32@.len() == GF3258_PIXELS && angle_map_u16@.len() == GF3258_PIXELS
            && candidate.scale_q16 > 0 ==> {
            &&& orientation_window_defined(*candidate)
            &&& window_angles_binned(*candidate, angle_map_u16@)
            &&& orientation_peak_defined(*candidate, magnitude_map_i32@, angle_map_u16@)
        },
    ensures
        magnitude_map_i32@.len() != GF3258_PIXELS ==> result == Err::<
            Gf3258OrientationResult,
            Gf3258OrientationError,
        >(
            Gf3258OrientationError::UnexpectedMapCount {
                map: "i32 magnitude",
                expected: GF3258_PIXELS,
                actual: magnitude_map_i32@.len() as usize,
            },
        ),
        magnitude_map_i32@.len() == GF3258_PIXELS && angle_map_u16@.len() != GF3258_PIXELS
            ==> result == Err::<Gf3258OrientationResult, Gf3258OrientationError>(
            Gf3258OrientationError::UnexpectedMapCount {
                map: "u16 angle",
                expected: GF3258_PIXELS,
                actual: angle_map_u16@.len() as usize,
            },
        ),
        magnitude_map_i32@.len() == GF3258_PIXELS && angle_map_u16@.len() == GF3258_PIXELS
            && candidate.scale_q16 <= 0 ==> result == Err::<
            Gf3258OrientationResult,
            Gf3258OrientationError,
        >(Gf3258OrientationError::InvalidScale(candidate.scale_q16)),
        magnitude_map_i32@.len() == GF3258_PIXELS && angle_map_u16@.len() == GF3258_PIXELS
            && candidate.scale_q16 > 0 ==> result is Ok && is_orientation_of(
            result->Ok_0,
            *candidate,
            magnitude_map_i32@,
            angle_map_u16@,
        ) && result->Ok_0.orientation_q12 < GF3258_PI_Q12,
{
    if magnitude_map_i32.len() != GF3258_PIXELS {
        return Err(
            Gf3258OrientationError::UnexpectedMapCount {
                map: "i32 magnitude",
                expected: GF3258_PIXELS,
                actual: magnitude_map_i32.len(),
            },
        );
    }
    if angle_map_u16.len() != GF3258_PIXELS {
        return Err(
            Gf3258OrientationError::UnexpectedMapCount {
                map: "u16 angle",
                expected: GF3258_PIXELS,
                actual: angle_map_u16.len(),
            },
        );
    }
    if candidate.scale_q16 <= 0 {
        return Err(Gf3258OrientationError::InvalidScale(candidate.scale_q16));
    }
    Ok(gf3258_orientation_unless_flat(candidate, magnitude_map_i32, angle_map_u16).unwrap())
}

/// CORDIC gain in Q16.
pub const GF3258_CORDIC_GAIN_Q16: i32 = 0x9b75;

pub const GF3258_CORDIC_ATAN_Q12: [i32; 13] = [
    3217,
    1899,
    1003,
    509,
    256,
    128,
    64,
    32,
    16,
    8,
    4,
    2,
    1,
];

/// State of the rotating CORDIC: the vector and the angle it has been turned by.
#[derive(Clone, Copy)]
pub struct RotationCordic {
    pub x: i32,
    pub y: i32,
    pub turned: i32,
}

/// Rotation number `i` turns the vector toward the target angle. The vector is
/// narrowed to 16 bits before it is shifted.
pub open spec fn rotation_step(s: RotationCordic, target: int, i: int) -> RotationCordic {
    let x_shift = ((s.x as i16) as i32) >> (i as u32);
    let y_shift = ((s.y as i16) as i32) >> (i as u32);
    let turn = GF3258_CORDIC_ATAN_Q12@[i];
    if target >= s.turned {
        RotationCordic {
            x: s.x.wrapping_sub(y_shift),
            y: s.y.wrapping_add(x_shift),
            turned: s.turned.wrapping_add(turn),
        }
    } else {
        RotationCordic {
            x: s.x.wrapping_add(y_shift),
            y: s.y.wrapping_sub(x_shift),
            turned: s.turned.wrapping_sub(turn),
        }
    }
}

/// The first `n` rotations of the unit vector.
pub open spec fn rotations(target: int, n: nat) -> RotationCordic
    decreases n,
{
    if n == 0 {
        RotationCordic { x: 0x4000, y: 0, turned: 0 }
    } else {
        rotation_step(rotations(target, (n - 1) as nat), target, n - 1)
    }
}

/// A vector component with the CORDIC gain removed, rounded to Q14.
pub open spec fn gain_corrected(component: i32) -> i32 {
    ((((component as i16) as i32) * GF3258_CORDIC_GAIN_Q16 + 0x8000) / 65536) as i32
}

/// `(sin, cos)` in Q14 of an angle in `0..pi`.
pub open spec fn sin_cos_q14_spec(angle_q12: u16) -> (i32, i32) {
    let half_pi = GF3258_PI_Q12 as int / 2;
    let obtuse = angle_q12 > half_pi;
    let reduced: int = if obtuse {
        GF3258_PI_Q12 - angle_q12
    } else {
        angle_q12 as int
    };
    let (sin, cos) = if reduced == 0 {
        (0i32, 0x4000i32)
    } else if reduced == half_pi {
        (0x4000i32, 0i32)
    } else {
        let end = rotations(reduced, 13);
        (gain_corrected(end.y), gain_corrected(end.x))
    };
    (
        sin,
        if obtuse {
            0i32.wrapping_sub(cos)
        } else {
            cos
        },
    )
}

fn remove_gain(component: i32) -> (r: i32)
    ensures
        r == gain_corrected(component),
{
    let narrowed: i32 = (component as i16) as i32;
    let scaled: i32 = narrowed * GF3258_CORDIC_GAIN_Q16 + 0x8000;
    proof {
        arith::lemma_i64_shr_fixed(scaled as i64);
    }
    scaled >> 16u32
}

/// `(sin, cos)` in Q14 of a ridge orientation.
pub fn gf3258_cordic_sin_cos_q14(angle_q12: u16) -> (r: (i32, i32))
    requires
        angle_q12 < GF3258_PI_Q12,
    ensures
        r == sin_cos_q14_spec(angle_q12),
{
    let angle: i32 = angle_q12 as i32;
    let half_pi: i32 = GF3258_PI_Q12 / 2;
    let obtuse: bool = angle > half_pi;
    let reduced: i32 = if obtuse {
        GF3258_PI_Q12 - angle
    } else {
        angle
    };
    let mut sin: i32 = 0;
    let mut cos: i32 = 0;
    if reduced == 0 {
        cos = 0x4000;
    } else if reduced == half_pi {
        sin = 0x4000;
    } else {
        let mut s: RotationCordic = RotationCordic { x: 0x4000, y: 0, turned: 0 };
        for i in 0..13usize
            invariant
                s == rotations(reduced as int, i as nat),
        {
            let x_shift: i32 = ((s.x as i16) as i32) >> (i as u32);
            let y_shift: i32 = ((s.y as i16) as i32) >> (i as u32);
            let turn: i32 = GF3258_CORDIC_ATAN_Q12[i];
            if reduced >= s.turned {
                s = RotationCordic {
                    x: s.x.wrapping_sub(y_shift),
                    y: s.y.wrapping_add(x_shift),
                    turned: s.turned.wrapping_add(turn),
                };
            } else {
                s = RotationCordic {
                    x: s.x.wrapping_add(y_shift),
                    y: s.y.wrapping_sub(x_shift),
                    turned: s.turned.wrapping_sub(turn),
                };
            }
        }
        sin = remove_gain(s.y);
        cos = remove_gain(s.x);
    }
    if obtuse {
        (sin, 0i32.wrapping_sub(cos))
    } else {
        (sin, cos)
    }
}

/// Sine and cosine stay within the range of the gain correction.
pub proof fn lemma_sin_cos_bound(angle_q12: u16)
    ensures
        -0x5000 <= sin_cos_q14_spec(angle_q12).0 <= 0x5000,
        -0x5000 <= sin_cos_q14_spec(angle_q12).1 <= 0x5000,
{
}

/// Reflection at a quarter turn keeps the sine and turns the sign of the cosine;
/// the ends of the quarter are exact.
pub proof fn lemma_sin_cos_reflection(angle_q12: u16)
    requires
        0 < angle_q12 < GF3258_PI_Q12,
    ensures
        ({
            let (sin, cos) = sin_cos_q14_spec(angle_q12);
            let (reflected_sin, reflected_cos) = sin_cos_q14_spec(
                (GF3258_PI_Q12 - angle_q12) as u16,
            );
            reflected_sin == sin && reflected_cos == -cos
        }),
        sin_cos_q14_spec(0) == (0i32, 0x4000i32),
        sin_cos_q14_spec((GF3258_PI_Q12 / 2) as u16) == (0x4000i32, 0i32),
{
    lemma_sin_cos_bound(angle_q12);
}

impl Gf3258OrientationError {
    pub open spec fn message_spec(&self) -> Seq<char> {
        match self {
            Gf3258OrientationError::UnexpectedMapCount { map, expected, actual } => {
                "GF3258 orientation "@ + map@ + " map has "@ + text::decimal(*actual as nat)
                    + " pixels; expected "@ + text::decimal(*expected as nat) + " (80x64)"@
            },
            Gf3258OrientationError::InvalidScale(scale) => {
                "GF3258 primary orientation requires a positive Q16 scale; got "@
                    + text::signed_decimal(*scale as int)
            },
        }
    }

    /// The message of this error.
    pub fn message(&self) -> (text: String)
        ensures
            text@ == self.message_spec(),
    {
        match self {
            Gf3258OrientationError::UnexpectedMapCount { map, expected, actual } => {
                let mut out: String = "GF3258 orientation ".to_owned();
                out.append(map);
                out.append(" map has ");
                text::push_decimal(&mut out, *actual as u64);
                out.append(" pixels; expected ");
                text::push_decimal(&mut out, *expected as u64);
                out.append(" (80x64)");
                out
            },
            Gf3258OrientationError::InvalidScale(scale) => {
                let mut out: String =
                    "GF3258 primary orientation requires a positive Q16 scale; got ".to_owned();
                text::push_signed(&mut out, *scale);
                out
            },
        }
    }
}

} // verus!
