//! What makes a pixel valid: contrast, seen the same along both axes, averaged over
//! the square around it; what makes a point well supported, and a capture good.
use vstd::prelude::*;

use crate::arith;
use crate::feature::detector;
use crate::feature::filter;
use crate::feature::image_laws;
use crate::feature::quality;
use crate::feature::support;
use crate::feature::support::Gf3258SupportPoint;
use crate::feature::validity;

verus! {

/// The strength of stripes is twice the step between the neighbours along the axis
/// that they vary on, and zero on its borders; along the other axis there is none.
pub proof fn lemma_strength_of_stripes(image: Seq<u8>, x: int, y: int)
    requires
        0 <= x < 80,
        0 <= y < 64,
    ensures
        ({
            let s = validity::gradient_strength(image)[y * 80 + x];
            &&& image_laws::rows_alike(image) ==> s == (if x == 0 || x == 79 {
                0
            } else {
                2 * arith::abs(image[x + 1] - image[x - 1])
            })
            &&& image_laws::columns_alike(image) ==> s == (if y == 0 || y == 63 {
                0
            } else {
                2 * arith::abs(image[(y + 1) * 80] - image[(y - 1) * 80])
            })
        }),
{
    let up = filter::reflect101_spec(y - 1, 64);
    let down = filter::reflect101_spec(y + 1, 64);
    let left = filter::reflect101_spec(x - 1, 80);
    let right = filter::reflect101_spec(x + 1, 80);
    filter::lemma_reflect101_range(y - 1, 64);
    filter::lemma_reflect101_range(y + 1, 64);
    filter::lemma_reflect101_range(x - 1, 80);
    filter::lemma_reflect101_range(x + 1, 80);
    let i = y * 80 + x;
    assert(i % 80 == x && i / 80 == y);
    if 1 <= x < 79 {
        lemma_step_x(image, x, up);
        lemma_step_x(image, x, y);
        lemma_step_x(image, x, down);
    }
    if 1 <= y < 63 {
        lemma_step_y(image, left, y);
        lemma_step_y(image, x, y);
        lemma_step_y(image, right, y);
    }
}

proof fn lemma_step_x(image: Seq<u8>, x: int, y: int)
    requires
        1 <= x < 79,
        0 <= y < 64,
    ensures
        image_laws::rows_alike(image) ==> validity::step_x(image, x, y) == image[x + 1] - image[x
            - 1],
        image_laws::columns_alike(image) ==> validity::step_x(image, x, y) == 0,
{
    image_laws::lemma_alike(image, y * 80 + x + 1, x + 1);
    image_laws::lemma_alike(image, y * 80 + x - 1, x - 1);
    image_laws::lemma_alike(image, y * 80 + x + 1, y * 80 + x - 1);
}

proof fn lemma_step_y(image: Seq<u8>, x: int, y: int)
    requires
        0 <= x < 80,
        1 <= y < 63,
    ensures
        image_laws::columns_alike(image) ==> validity::step_y(image, x, y) == image[(y + 1) * 80]
            - image[(y - 1) * 80],
        image_laws::rows_alike(image) ==> validity::step_y(image, x, y) == 0,
{
    image_laws::lemma_alike(image, (y + 1) * 80 + x, (y + 1) * 80);
    image_laws::lemma_alike(image, (y - 1) * 80 + x, (y - 1) * 80);
    image_laws::lemma_alike(image, (y + 1) * 80 + x, (y - 1) * 80 + x);
}

/// The box average lies between the bounds of what it averages, to one part in a
/// thousand, and sees nothing farther than seven pixels away along either axis.
pub proof fn lemma_box_is_an_average(s: Seq<u16>, t: Seq<u16>, x: int, y: int, low: int, high: int)
    requires
        s.len() == 5120,
        t.len() == 5120,
        7 <= x < 73,
        7 <= y < 57,
        0 <= low,
        high <= 0xffff,
        forall|px: int, py: int|
            x - 7 <= px <= x + 7 && y - 7 <= py <= y + 7 ==> low <= #[trigger] s[py * 80 + px]
                <= high && t[py * 80 + px] == s[py * 80 + px],
    ensures
        ({
            let average = validity::box_filtered(s)[y * 80 + x];
            &&& low * 999 / 1000 <= average <= high
            &&& validity::box_filtered(t)[y * 80 + x] == average
        }),
{
    lemma_box_bounds(s, t, x, y, low, high, 225);
    let i = y * 80 + x;
    assert(i % 80 == x && i / 80 == y);
    let total = validity::box_sum(s, x, y, 225);
    assert(0 <= total * 291 / 65536 <= high);
}

proof fn lemma_box_bounds(
    s: Seq<u16>,
    t: Seq<u16>,
    x: int,
    y: int,
    low: int,
    high: int,
    n: nat,
)
    requires
        n <= 225,
        7 <= x < 73,
        7 <= y < 57,
        forall|px: int, py: int|
            x - 7 <= px <= x + 7 && y - 7 <= py <= y + 7 ==> low <= #[trigger] s[py * 80 + px]
                <= high && t[py * 80 + px] == s[py * 80 + px],
    ensures
        low * n <= validity::box_sum(s, x, y, n) <= high * n,
        validity::box_sum(t, x, y, n) == validity::box_sum(s, x, y, n),
    decreases n,
{
    if n > 0 {
        lemma_box_bounds(s, t, x, y, low, high, (n - 1) as nat);
        let k = n - 1;
        let px = x + k % 15 - 7;
        let py = y + k / 15 - 7;
        assert(x - 7 <= px <= x + 7 && y - 7 <= py <= y + 7);
        assert(low <= s[py * 80 + px] <= high);
        filter::lemma_reflect101_range(px, 80);
        filter::lemma_reflect101_range(py, 64);
        lemma_one_more(low, n);
        lemma_one_more(high, n);
    }
}

proof fn lemma_one_more(a: int, n: nat)
    requires
        n > 0,
    ensures
        a * n == a * (n - 1) + a,
{
    assert(a * n == a * (n - 1) + a) by (nonlinear_arith);
}

/// An image without contrast has no valid pixel: its coverage is zero.
pub proof fn lemma_flat_is_invalid(source: Seq<u8>, threshold: u16, i: int)
    requires
        image_laws::rows_alike(source),
        image_laws::columns_alike(source),
        0 <= i < 5120,
    ensures
        validity::coverage_q16_spec(source, threshold) == 0,
        validity::validity_mask(source)[i] == 0,
{
    let f = validity::prefiltered(source);
    let s = validity::gradient_strength(f);
    lemma_prefiltered_stripes(source);
    lemma_flat_strength(f);
    lemma_box_of_flat(s);
    lemma_none_above(validity::smoothed_strength_spec(source), threshold, 5120);
}

proof fn lemma_flat_strength(f: Seq<u8>)
    requires
        image_laws::rows_alike(f),
        image_laws::columns_alike(f),
    ensures
        forall|k: int| 0 <= k < 5120 ==> #[trigger] validity::gradient_strength(f)[k] == 0,
{
    assert forall|k: int| 0 <= k < 5120 implies #[trigger] validity::gradient_strength(f)[k]
        == 0 by {
        let x = k % 80;
        let y = k / 80;
        assert(k == y * 80 + x);
        lemma_strength_of_stripes(f, x, y);
        if 1 <= x < 79 {
            image_laws::lemma_alike(f, x + 1, x - 1);
        }
    }
}

proof fn lemma_box_of_flat(s: Seq<u16>)
    requires
        forall|k: int| 0 <= k < 5120 ==> #[trigger] s[k] == 0,
    ensures
        forall|k: int| 0 <= k < 5120 ==> #[trigger] validity::box_filtered(s)[k] == 0,
{
    assert forall|k: int| 0 <= k < 5120 implies #[trigger] validity::box_filtered(s)[k] == 0 by {
        lemma_box_of_zeros(s, k % 80, k / 80, 225);
    }
}

proof fn lemma_prefiltered_stripes(source: Seq<u8>)
    requires
        image_laws::rows_alike(source),
        image_laws::columns_alike(source),
    ensures
        image_laws::rows_alike(validity::prefiltered(source)),
        image_laws::columns_alike(validity::prefiltered(source)),
{
    reveal(image_laws::rows_alike);
    reveal(image_laws::columns_alike);
    let wide = detector::widened_image(source);
    assert forall|a: int, b: int| 0 <= a < 5120 && 0 <= b < 5120 && a % 80 == b % 80 implies
        #[trigger] wide[a] == #[trigger] wide[b] by {
        assert(source[a] == source[b]);
    }
    assert forall|a: int, b: int| 0 <= a < 5120 && 0 <= b < 5120 && a / 80 == b / 80 implies
        #[trigger] wide[a] == #[trigger] wide[b] by {
        assert(source[a] == source[b]);
    }
    image_laws::lemma_filter_keeps_stripes(wide, validity::GF3258_BD720_MODE7_KERNEL@);
    let filtered = filter::separable_q16_spec(wide, validity::GF3258_BD720_MODE7_KERNEL@);
    let f = validity::prefiltered(source);
    assert forall|a: int, b: int| 0 <= a < 5120 && 0 <= b < 5120 && a % 80 == b % 80 implies
        #[trigger] f[a] == #[trigger] f[b] by {
        assert(filtered[a] == filtered[b]);
    }
    assert forall|a: int, b: int| 0 <= a < 5120 && 0 <= b < 5120 && a / 80 == b / 80 implies
        #[trigger] f[a] == #[trigger] f[b] by {
        assert(filtered[a] == filtered[b]);
    }
}

proof fn lemma_box_of_zeros(s: Seq<u16>, x: int, y: int, n: nat)
    requires
        forall|k: int| 0 <= k < 5120 ==> #[trigger] s[k] == 0,
    ensures
        validity::box_sum(s, x, y, n) == 0,
    decreases n,
{
    if n > 0 {
        lemma_box_of_zeros(s, x, y, (n - 1) as nat);
        let k = n - 1;
        filter::lemma_reflect101_range(x + k % 15 - 7, 80);
        filter::lemma_reflect101_range(y + k / 15 - 7, 64);
        let sx = filter::reflect101_spec(x + k % 15 - 7, 80);
        let sy = filter::reflect101_spec(y + k / 15 - 7, 64);
        assert(s[sy * 80 + sx] == 0);
    }
}

proof fn lemma_none_above(s: Seq<u16>, threshold: u16, n: nat)
    requires
        n <= 5120,
        forall|k: int| 0 <= k < 5120 ==> #[trigger] s[k] == 0,
    ensures
        validity::count_above(s, threshold, n) == 0,
    decreases n,
{
    if n > 0 {
        lemma_none_above(s, threshold, (n - 1) as nat);
    }
}

/// Sum of four neighbouring mask bytes.
pub open spec fn four_across(mask: Seq<u8>, at: int) -> int {
    mask[at] + mask[at + 1] + mask[at + 2] + mask[at + 3]
}

/// A block of the reduced mask is valid exactly when at least eight of its four by
/// four pixels are, counted over its four rows.
pub proof fn lemma_block_majority(mask: Seq<u8>, row: int, column: int)
    requires
        mask.len() == 5120,
        0 <= row < 16,
        0 <= column < 20,
    ensures
        ({
            let at = row * 320 + column * 4;
            let valid = four_across(mask, at) + four_across(mask, at + 80) + four_across(
                mask,
                at + 160,
            ) + four_across(mask, at + 240);
            validity::quarter_validity_spec(mask)[row * 20 + column] == (if valid >= 8 {
                1u8
            } else {
                0u8
            })
        }),
{
    let c = row * 20 + column;
    assert(c % 20 == column && c / 20 == row);
    let at = row * 320 + column * 4;
    assert(validity::block_sum(mask, c, 4) == four_across(mask, at)) by {
        reveal_with_fuel(validity::block_sum, 5);
    }
    assert(validity::block_sum(mask, c, 8) == validity::block_sum(mask, c, 4) + four_across(
        mask,
        at + 80,
    )) by {
        reveal_with_fuel(validity::block_sum, 5);
    }
    assert(validity::block_sum(mask, c, 12) == validity::block_sum(mask, c, 8) + four_across(
        mask,
        at + 160,
    )) by {
        reveal_with_fuel(validity::block_sum, 5);
    }
    assert(validity::block_sum(mask, c, 16) == validity::block_sum(mask, c, 12) + four_across(
        mask,
        at + 240,
    )) by {
        reveal_with_fuel(validity::block_sum, 5);
    }
}

/// The distance of two points is the same both ways, is that of their whole pixels,
/// and grows with either coordinate.
pub proof fn lemma_support_distance(a: Gf3258SupportPoint, b: Gf3258SupportPoint)
    ensures
        support::support_distance_sq(a, b) == support::support_distance_sq(b, a),
        support::support_distance_sq(a, b) >= 0,
        support::support_distance_sq(a, b) == 0 <==> a.x_q8 / 256 == b.x_q8 / 256 && a.y_q8 / 256
            == b.y_q8 / 256,
        a.y_q8 / 256 == b.y_q8 / 256 && b.x_q8 / 256 == a.x_q8 / 256 + 1
            ==> support::support_distance_sq(a, b) == 1,
        a.x_q8 / 256 == b.x_q8 / 256 && b.y_q8 / 256 == a.y_q8 / 256 + 1
            ==> support::support_distance_sq(a, b) == 1,
        a.x_q8 / 256 + 16 <= b.x_q8 / 256 || a.y_q8 / 256 + 16 <= b.y_q8 / 256
            ==> support::support_distance_sq(a, b) >= 256,
{
    let dx = b.x_q8 as int / 256 - a.x_q8 as int / 256;
    let dy = a.y_q8 as int / 256 - b.y_q8 as int / 256;
    assert(dx * dx >= 0 && dy * dy >= 0 && (dx == 0 <==> dx * dx == 0) && (dy == 0 <==> dy * dy == 0)
        && dx * dx == (-dx) * (-dx) && dy * dy == (-dy) * (-dy) && (dx == 1 ==> dx * dx == 1) && (dy
        == -1 ==> dy * dy == 1) && (dx >= 16 ==> dx * dx >= 256) && (dy <= -16 ==> dy * dy >= 256))
        by (nonlinear_arith);
}

/// A point whose neighbours are all out of reach has no support.
pub proof fn lemma_lonely_point(
    points: Seq<Gf3258SupportPoint>,
    quality: Seq<i8>,
    source_quality: Seq<i8>,
    i: int,
)
    requires
        0 <= i < points.len(),
        forall|j: int|
            0 <= j < points.len() ==> {
                ||| (#[trigger] points[j]) == points[i]
                ||| points[j].x_q8 as int / 256 >= points[i].x_q8 as int / 256 + 16
                ||| points[j].x_q8 as int / 256 <= points[i].x_q8 as int / 256 - 16
                ||| points[j].y_q8 as int / 256 >= points[i].y_q8 as int / 256 + 16
                ||| points[j].y_q8 as int / 256 <= points[i].y_q8 as int / 256 - 16
            },
    ensures
        support::support_byte(support::all_neighbors(points, quality, source_quality, i)) == 0,
        support::average_byte(support::all_neighbors(points, quality, source_quality, i)) == 0,
{
    lemma_no_neighbors(points, quality, source_quality, i, points.len());
    assert(0i32.wrapping_mul(100) == 0);
    assert(0i32 as u8 == 0u8) by (bit_vector);
}

proof fn lemma_no_neighbors(
    points: Seq<Gf3258SupportPoint>,
    quality: Seq<i8>,
    source_quality: Seq<i8>,
    i: int,
    n: nat,
)
    requires
        0 <= i < points.len(),
        n <= points.len(),
        forall|j: int|
            0 <= j < points.len() ==> {
                ||| (#[trigger] points[j]) == points[i]
                ||| points[j].x_q8 as int / 256 >= points[i].x_q8 as int / 256 + 16
                ||| points[j].x_q8 as int / 256 <= points[i].x_q8 as int / 256 - 16
                ||| points[j].y_q8 as int / 256 >= points[i].y_q8 as int / 256 + 16
                ||| points[j].y_q8 as int / 256 <= points[i].y_q8 as int / 256 - 16
            },
    ensures
        support::neighbor_sums(points, quality, source_quality, i, n) == (support::NeighborSums {
            denominator: 1,
            quality_sum: 0,
            support_sum: 0,
        }),
    decreases n,
{
    if n > 0 {
        lemma_no_neighbors(points, quality, source_quality, i, (n - 1) as nat);
        let p = points[n - 1];
        lemma_support_distance(points[i], p);
        lemma_support_distance(p, points[i]);
    }
}

/// A nearer neighbour counts no less than a farther one, every one within reach
/// counts, and one of a quality above fifty counts half as much again.
pub proof fn lemma_nearer_counts_more(near: int, far: int)
    requires
        1 <= near,
        near <= far <= 255,
    ensures
        support::support_weight(far, 50) >= 1,
        support::support_weight(near, 50) >= support::support_weight(far, 50),
        support::support_weight(near, 50) <= 39,
        support::support_weight(near, 51) == support::support_weight(near, 50)
            + support::support_weight(near, 50) / 2,
{
    lemma_table_grows(255 - far, 255 - near);
    lemma_table_grows(0, 255 - far);
    lemma_table_grows(255 - near, 255);
}

proof fn lemma_table_grows(low: int, high: int)
    requires
        0 <= low <= high < 256,
    ensures
        support::GF3258_SUPPORT_PROXIMITY_TABLE@[low]
            <= support::GF3258_SUPPORT_PROXIMITY_TABLE@[high],
        support::GF3258_SUPPORT_PROXIMITY_TABLE@[0] == 1,
        support::GF3258_SUPPORT_PROXIMITY_TABLE@[255] == 39,
    decreases high - low,
{
    if low < high {
        lemma_table_grows(low, high - 1);
    }
}

/// The last steps of a quality keep its order and never raise it by more than
/// seven: with half of the area covered a positive quality gains seven, up to a
/// hundred; with less it falls with the square of the area; with less than six
/// percent, or with none to start from, nothing is left.
pub proof fn lemma_final_quality(quality: int, better: int, coverage: int, wider: int)
    requires
        0 <= quality <= better <= 100,
        0 <= coverage <= wider <= 100,
    ensures
        quality::final_quality(quality, coverage) <= quality::final_quality(better, coverage),
        quality::final_quality(quality, coverage) <= quality::final_quality(quality, wider),
        0 <= quality::final_quality(quality, coverage) <= 100,
        quality::final_quality(quality, coverage) <= quality + 7,
        quality::final_quality(0, coverage) == 0,
        coverage < 6 ==> quality::final_quality(quality, coverage) == 0,
        coverage >= 50 && 1 <= quality <= 93 ==> quality::final_quality(quality, coverage) == quality
            + 7,
        coverage >= 50 && quality > 93 ==> quality::final_quality(quality, coverage) == 100,
        coverage == 25 && 1 <= quality ==> quality::final_quality(quality, coverage) == (quality + 7)
            / 4,
{
    lemma_area_scaling(raised(quality), raised(better), coverage, wider);
    lemma_area_scaling(0, raised(quality), coverage, wider);
    assert(coverage * 0 * coverage == 0) by (nonlinear_arith);
}

spec fn raised(quality: int) -> int {
    if quality > 0 {
        quality + 7
    } else {
        quality
    }
}

proof fn lemma_area_scaling(low: int, high: int, coverage: int, wider: int)
    requires
        0 <= low <= high,
        0 <= coverage <= wider,
    ensures
        0 <= coverage * low * coverage <= coverage * high * coverage,
        coverage * high * coverage <= wider * high * wider,
        coverage <= 50 ==> coverage * high * coverage <= high * 2500,
        coverage == 25 ==> coverage * high * coverage == high * 625,
{
    assert(0 <= coverage * low && coverage * low <= coverage * high && coverage * high <= wider * high)
        by (nonlinear_arith)
        requires
            0 <= low <= high,
            0 <= coverage <= wider,
    ;
    let a = coverage * low;
    let b = coverage * high;
    let c = wider * high;
    assert(0 <= a * coverage && a * coverage <= b * coverage && b * coverage <= c * wider)
        by (nonlinear_arith)
        requires
            0 <= a <= b,
            b <= c,
            0 <= coverage <= wider,
    ;
    if coverage <= 50 {
        assert(b * coverage <= high * 2500) by (nonlinear_arith)
            requires
                b == coverage * high,
                0 <= coverage <= 50,
                0 <= high,
        ;
    }
    if coverage == 25 {
        assert(b * coverage == high * 625) by (nonlinear_arith)
            requires
                b == coverage * high,
                coverage == 25,
        ;
    }
}

/// Losing area never raises a quality, and a small loss leaves it as it is.
pub proof fn lemma_coverage_scaled(quality: int, mask_coverage: int, coverage: int)
    requires
        0 <= quality,
        0 <= coverage,
        0 <= mask_coverage <= 65536,
    ensures
        0 <= quality::coverage_scaled(quality, mask_coverage, coverage) <= quality,
        coverage >= mask_coverage ==> quality::coverage_scaled(quality, mask_coverage, coverage)
            == quality,
        coverage == 0 && mask_coverage == 65536 ==> quality::coverage_scaled(
            quality,
            mask_coverage,
            coverage,
        ) == 0,
{
    if mask_coverage - coverage > quality::GF3258_MASK_COVERAGE_LOSS_Q16 {
        lemma_kept_share(quality, coverage, mask_coverage);
        lemma_kept_share(quality * coverage / mask_coverage, coverage, mask_coverage);
    }
}

proof fn lemma_kept_share(value: int, kept: int, whole: int)
    requires
        0 <= value,
        0 <= kept < whole,
    ensures
        0 <= value * kept / whole <= value,
        kept == 0 ==> value * kept / whole == 0,
{
    assert(0 <= value * kept <= value * whole) by (nonlinear_arith)
        requires
            0 <= value,
            0 <= kept < whole,
    ;
    assert(0 <= value * kept / whole) by (nonlinear_arith)
        requires
            0 <= value * kept,
            0 < whole,
    ;
    assert(value * kept / whole <= value) by (nonlinear_arith)
        requires
            value * kept <= value * whole,
            0 < whole,
    ;
    if kept == 0 {
        assert(value * kept == 0) by (nonlinear_arith)
            requires
                kept == 0,
        ;
        assert(0int / whole == 0) by (nonlinear_arith)
            requires
                0 < whole,
        ;
    }
}

/// The label of a pixel between stripes: three bright neighbours where one side is
/// brighter by more than four, none where neither is, and no run at all where both
/// are. It does not matter which way the stripes run.
pub proof fn lemma_label_between_stripes(image: Seq<u8>, x: int, y: int)
    requires
        1 <= x < 79,
        1 <= y < 63,
    ensures
        ({
            let i = y * 80 + x;
            let label = quality::pixel_label(image, i);
            &&& image_laws::rows_alike(image) ==> label == sides_label(
                image[i - 1] - image[i] > 4,
                image[i + 1] - image[i] > 4,
            )
            &&& image_laws::columns_alike(image) ==> label == sides_label(
                image[i - 80] - image[i] > 4,
                image[i + 80] - image[i] > 4,
            )
        }),
{
    let i = y * 80 + x;
    assert(i % 80 == x && i / 80 == y);
    lemma_circle(image, i);
    if image_laws::rows_alike(image) {
        image_laws::lemma_alike(image, i - 81, i - 1);
        image_laws::lemma_alike(image, i + 79, i - 1);
        image_laws::lemma_alike(image, i - 79, i + 1);
        image_laws::lemma_alike(image, i + 81, i + 1);
        image_laws::lemma_alike(image, i - 80, i);
        image_laws::lemma_alike(image, i + 80, i);
    }
    if image_laws::columns_alike(image) {
        image_laws::lemma_alike(image, i - 81, i - 80);
        image_laws::lemma_alike(image, i - 79, i - 80);
        image_laws::lemma_alike(image, i + 79, i + 80);
        image_laws::lemma_alike(image, i + 81, i + 80);
        image_laws::lemma_alike(image, i - 1, i);
        image_laws::lemma_alike(image, i + 1, i);
    }
}

/// The label that the brightness of the two sides gives.
pub open spec fn sides_label(one: bool, other: bool) -> int {
    if one && other {
        9
    } else if one || other {
        3
    } else {
        0
    }
}

/// The neighbours of a pixel in the order of the circle.
proof fn lemma_circle(image: Seq<u8>, i: int)
    ensures
        ({
            let b0 = quality::neighbor_bit(image, i, 0);
            let b1 = quality::neighbor_bit(image, i, 1);
            let b2 = quality::neighbor_bit(image, i, 2);
            let b3 = quality::neighbor_bit(image, i, 3);
            let b4 = quality::neighbor_bit(image, i, 4);
            let b5 = quality::neighbor_bit(image, i, 5);
            let b6 = quality::neighbor_bit(image, i, 6);
            let b7 = quality::neighbor_bit(image, i, 7);
            &&& quality::bright_neighbors(image, i, 8) == b0 + b1 + b2 + b3 + b4 + b5 + b6 + b7
            &&& quality::neighbor_changes(image, i, 8) == arith::abs(b0 - b7) + arith::abs(b1 - b0)
                + arith::abs(b2 - b1) + arith::abs(b3 - b2) + arith::abs(b4 - b3) + arith::abs(
                b5 - b4,
            ) + arith::abs(b6 - b5) + arith::abs(b7 - b6)
        }),
{
    reveal_with_fuel(quality::bright_neighbors, 9);
    reveal_with_fuel(quality::neighbor_changes, 9);
}

} // verus!
