//! What the orientation of a point and the smoothing along ridges do to simple
//! images and histograms.
use vstd::prelude::*;

use crate::arith;
use crate::feature::image_laws;
use crate::feature::orientation;
use crate::feature::orientation::OrientationField;

verus! {

/// The gradient of stripes is as long as the step of the sharpened image along the
/// axis that they vary on, up to the limit of a magnitude.
pub proof fn lemma_magnitude_of_stripes(image: Seq<u8>, x: int, y: int)
    requires
        1 <= x < 79,
        1 <= y < 63,
    ensures
        ({
            let i = y * 80 + x;
            let length = orientation::gradient_magnitudes(image)[i];
            let across = orientation::sharpened(image, i + 1) - orientation::sharpened(
                image,
                i - 1,
            );
            let down = orientation::sharpened(image, i + 80) - orientation::sharpened(
                image,
                i - 80,
            );
            let limit = orientation::GF3258_GRADIENT_MAGNITUDE_MAX as int;
            &&& image_laws::rows_alike(image) && -0x80000 < across < 0x80000 ==> length == (
            if arith::abs(across) > limit {
                limit
            } else {
                arith::abs(across)
            })
            &&& image_laws::columns_alike(image) && -0x80000 < down < 0x80000 ==> length == (
            if arith::abs(down) > limit {
                limit
            } else {
                arith::abs(down)
            })
        }),
{
    let i = y * 80 + x;
    assert(i % 80 == x && i / 80 == y);
    image_laws::lemma_gradient_of_stripes(image, x, y);
}

/// A selector is a direction in degrees, and its line the nearest of the twelve that
/// lie fifteen degrees apart; past 172 the nearest is again the first.
pub proof fn lemma_line_is_nearest(selector: u8)
    ensures
        ({
            let class = orientation::line_class(selector);
            &&& 0 <= class < 12
            &&& selector <= 172 ==> -7 <= selector - 15 * class <= 7
            &&& selector > 172 ==> class == 0
        }),
{
}

/// The samples of a window are those at most a radius away that have all their
/// neighbours.
pub proof fn lemma_window_is_clipped(x: int, y: int, radius: int, dx: int, dy: int)
    requires
        -1000 <= x <= 1000,
        -1000 <= y <= 1000,
        0 <= radius <= 32,
    ensures
        ({
            let w = orientation::orientation_window(x, y, radius);
            &&& (w.x_min_offset <= dx <= w.x_max_offset) == (-radius <= dx <= radius && 1 <= x + dx
                <= 78)
            &&& (w.y_min_offset <= dy <= w.y_max_offset) == (-radius <= dy <= radius && 1 <= y + dy
                <= 62)
        }),
{
}

/// A sample adds its weight to its bin and to the one half a turn away, and to no
/// other.
pub proof fn lemma_sample_counts_twice(f: OrientationField, h: Seq<u32>, dx: int, dy: int, k: int)
    requires
        h.len() == 36,
        0 <= k < 36,
        0 <= f.bin(dx, dy) < 36,
        h[k] < 0x8000_0000,
        f.contribution(dx, dy) < 0x8000_0000,
    ensures
        ({
            let bin = f.bin(dx, dy);
            let after = f.add_sample(h, dx, dy);
            after[k] - h[k] == (if k == bin || k == bin + 18 || k == bin - 18 {
                f.contribution(dx, dy) as int
            } else {
                0int
            })
        }),
{
}

/// Smoothing spreads a single full bin over its two neighbours on either side, by
/// the shares six, four and one of sixteen, round the circle.
pub proof fn lemma_smoothing_of_impulse(raw: Seq<u32>, at: int, unit: u32, i: int)
    requires
        raw.len() == 36,
        0 <= at < 36,
        0 <= i < 36,
        unit < 0x100_0000,
        forall|k: int|
            0 <= k < 36 ==> #[trigger] raw[k] == (if k == at {
                (unit * 16) as u32
            } else {
                0u32
            }),
    ensures
        ({
            let away = (i - at) % 36;
            orientation::smoothed_histogram(raw)[i] == (if away == 0 {
                6 * unit
            } else if away == 1 || away == 35 {
                4 * unit
            } else if away == 2 || away == 34 {
                unit as int
            } else {
                0int
            })
        }),
{
    let a = raw[(i + 34) % 36];
    let b = raw[(i + 35) % 36];
    let c = raw[i];
    let d = raw[(i + 1) % 36];
    let e = raw[(i + 2) % 36];
    lemma_five(a, b, c, d, e);
}

proof fn lemma_five(a: u32, b: u32, c: u32, d: u32, e: u32)
    requires
        a < 0x1000_0000,
        b < 0x1000_0000,
        c < 0x1000_0000,
        d < 0x1000_0000,
        e < 0x1000_0000,
    ensures
        orientation::smooth_five(a, b, c, d, e) == (a + 4 * b + 6 * c + 4 * d + e) / 16,
{
    reveal(orientation::smooth_five);
    assert(b.wrapping_mul(4) == 4 * b);
    assert(c.wrapping_mul(6) == 6 * c);
    assert(d.wrapping_mul(4) == 4 * d);
    assert(a.wrapping_add(b.wrapping_mul(4)) == a + 4 * b);
    assert(a.wrapping_add(b.wrapping_mul(4)).wrapping_add(c.wrapping_mul(6)) == a + 4 * b + 6 * c);
}

/// Smoothing keeps a histogram between the bounds of what it smooths.
pub proof fn lemma_smoothing_is_an_average(raw: Seq<u32>, low: int, high: int, i: int)
    requires
        raw.len() == 36,
        0 <= i < 36,
        0 <= low,
        high < 0x1000_0000,
        forall|k: int| 0 <= k < 36 ==> low <= #[trigger] raw[k] <= high,
    ensures
        low <= orientation::smoothed_histogram(raw)[i] <= high,
{
    let a = raw[(i + 34) % 36];
    let b = raw[(i + 35) % 36];
    let c = raw[i];
    let d = raw[(i + 1) % 36];
    let e = raw[(i + 2) % 36];
    lemma_five(a, b, c, d, e);
    assert(orientation::smoothed_histogram(raw)[i] == orientation::smooth_five(a, b, c, d, e));
    assert(16 * low <= a + 4 * b + 6 * c + 4 * d + e <= 16 * high);
}

/// A peak position is a share of the turn: `36 * 512` positions make one turn.
pub proof fn lemma_peak_angle(peak: i32)
    requires
        0 <= peak < 36 * 512,
    ensures
        ({
            let angle = orientation::peak_angle(peak);
            &&& 18432 * angle <= peak * 0x6488 < 18432 * (angle + 1)
            &&& 0 <= angle < 0x6488
        }),
{
}

/// Folding takes away half a turn or nothing, whichever leaves less than half a turn.
pub proof fn lemma_folding(angle: int)
    requires
        0 <= angle < 0x6488,
    ensures
        0 <= orientation::folded_angle(angle) < 0x3244,
        orientation::folded_angle(angle) == angle || orientation::folded_angle(angle) == angle
            - 0x3244,
{
}

/// The sums of a line whose samples lie between two bounds.
proof fn lemma_line_sums_bounds(
    source: Seq<u8>,
    class: int,
    x: int,
    y: int,
    low: int,
    high: int,
    n: nat,
)
    requires
        0 <= class < 12,
        0 <= x < 80,
        0 <= y < 64,
        n <= 7,
        forall|k: int|
            0 <= k < 7 ==> {
                let (dx, dy) = #[trigger] orientation::GF3258_C7310_DIRECTION_OFFSETS@[class]@[k];
                0 <= x + dx < 80 && 0 <= y + dy < 64 ==> low <= source[(y + dy) * 80 + (x + dx)]
                    <= high
            },
    ensures
        ({
            let (weighted, weights) = orientation::line_sums(source, class, x, y, n);
            &&& low * weights <= weighted <= high * weights
            &&& weights >= (if n >= 4 {
                8int
            } else {
                0int
            })
        }),
    decreases n,
{
    if n > 0 {
        lemma_line_sums_bounds(source, class, x, y, low, high, (n - 1) as nat);
        let (weighted, weights) = orientation::line_sums(source, class, x, y, (n - 1) as nat);
        let weight = orientation::GF3258_C7310_WEIGHTS@[n - 1] as int;
        let (dx, dy) = orientation::GF3258_C7310_DIRECTION_OFFSETS@[class]@[n - 1];
        assert(weight >= 1);
        if n == 4 {
            assert(orientation::GF3258_C7310_DIRECTION_OFFSETS@[class]@[3] == (0i32, 0i32));
            assert(weight == 8);
        }
        if 0 <= x + dx < 80 && 0 <= y + dy < 64 {
            let sample = source[(y + dy) * 80 + (x + dx)] as int;
            assert(low * (weights + weight) <= weighted + sample * weight <= high * (weights
                + weight)) by (nonlinear_arith)
                requires
                    low * weights <= weighted <= high * weights,
                    low <= sample <= high,
                    weight >= 1,
            ;
            assert(orientation::line_sums(source, class, x, y, n) == (
                weighted + sample * weight,
                weights + weight,
            ));
        } else {
            assert(orientation::line_sums(source, class, x, y, n) == (weighted, weights));
        }
    } else {
        assert(low * 0 == 0 && high * 0 == 0) by (nonlinear_arith);
    }
}

proof fn lemma_average_bounds(weighted: int, weights: int, low: int, high: int)
    requires
        weights > 0,
        low * weights <= weighted <= high * weights,
    ensures
        low <= weighted / weights <= high,
{
    assert(low <= weighted / weights <= high) by (nonlinear_arith)
        requires
            weights > 0,
            low * weights <= weighted <= high * weights,
    ;
}

/// Smoothing along ridges averages: no pixel leaves the bounds of the image.
pub proof fn lemma_ridge_smoothing_is_an_average(source: Seq<u8>, low: u8, high: u8, i: int)
    requires
        source.len() == 5120,
        0 <= i < 5120,
        forall|k: int| 0 <= k < 5120 ==> low <= #[trigger] source[k] <= high,
    ensures
        low <= orientation::gradient_source_spec(source)[i] <= high,
{
    let x = i % 80;
    let y = i / 80;
    let class = orientation::line_class(orientation::direction_map_spec(source)[i]);
    lemma_line_is_nearest(orientation::direction_map_spec(source)[i]);
    lemma_line_sums_bounds(source, class, x, y, low as int, high as int, 7);
    let (weighted, weights) = orientation::line_sums(source, class, x, y, 7);
    lemma_average_bounds(weighted, weights, low as int, high as int);
}

/// Smoothing along ridges leaves stripes as they are, wherever their direction can
/// be seen: it never mixes across them.
pub proof fn lemma_ridge_smoothing_keeps_stripes(source: Seq<u8>, i: int)
    requires
        source.len() == 5120,
        0 <= i < 5120,
        image_laws::rows_alike(source) && 0 < orientation::tensor_around(
            orientation::tensor_diff(source),
            i,
        ) <= i32::MAX || image_laws::columns_alike(source) && i32::MIN < orientation::tensor_around(
            orientation::tensor_diff(source),
            i,
        ) < 0,
    ensures
        orientation::gradient_source_spec(source)[i] == source[i],
{
    let x = i % 80;
    let y = i / 80;
    let value = source[i] as int;
    image_laws::lemma_ridges_of_stripes(source, i);
    let direction = orientation::direction_map_spec(source)[i];
    let class = orientation::line_class(direction);
    lemma_line_is_nearest(direction);
    let upright = image_laws::rows_alike(source) && 0 < orientation::tensor_around(
        orientation::tensor_diff(source),
        i,
    ) <= i32::MAX;
    assert(class == if upright { 6int } else { 0int });
    assert forall|k: int| 0 <= k < 7 implies {
        let (dx, dy) = #[trigger] orientation::GF3258_C7310_DIRECTION_OFFSETS@[class]@[k];
        0 <= x + dx < 80 && 0 <= y + dy < 64 ==> value <= source[(y + dy) * 80 + (x + dx)] <= value
    } by {
        let (dx, dy) = orientation::GF3258_C7310_DIRECTION_OFFSETS@[class]@[k];
        if 0 <= x + dx < 80 && 0 <= y + dy < 64 {
            lemma_straight_lines(k);
            image_laws::lemma_alike(source, (y + dy) * 80 + (x + dx), i);
        }
    }
    lemma_line_sums_bounds(source, class, x, y, value, value, 7);
    let (weighted, weights) = orientation::line_sums(source, class, x, y, 7);
    lemma_average_bounds(weighted, weights, value, value);
}

/// The first line runs along a row, the seventh along a column.
proof fn lemma_straight_lines(k: int)
    requires
        0 <= k < 7,
    ensures
        orientation::GF3258_C7310_DIRECTION_OFFSETS@[0]@[k].1 == 0,
        orientation::GF3258_C7310_DIRECTION_OFFSETS@[6]@[k].0 == 0,
{
    assert(k == 0 || k == 1 || k == 2 || k == 3 || k == 4 || k == 5 || k == 6);
}

/// Every line is a line: its samples lie on both sides of the pixel, at opposite
/// places, and are weighted alike.
pub proof fn lemma_lines_are_symmetric(class: int, k: int)
    requires
        0 <= class < 12,
        0 <= k < 7,
    ensures
        ({
            let (dx, dy) = orientation::GF3258_C7310_DIRECTION_OFFSETS@[class]@[k];
            let (ex, ey) = orientation::GF3258_C7310_DIRECTION_OFFSETS@[class]@[6 - k];
            &&& dx == -ex
            &&& dy == -ey
            &&& orientation::GF3258_C7310_WEIGHTS@[k] == orientation::GF3258_C7310_WEIGHTS@[6 - k]
        }),
{
    assert(k == 0 || k == 1 || k == 2 || k == 3 || k == 4 || k == 5 || k == 6);
}

} // verus!
