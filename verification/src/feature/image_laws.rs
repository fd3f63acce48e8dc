//! What the image operators do to stripes: images that vary along one axis only
//! have gradients along that axis, and ridges across it.
use vstd::prelude::*;

use crate::feature::detector;
use crate::feature::filter;
use crate::feature::orientation;

verus! {

/// Every row of the image is the same: it varies along `x` only.
#[verifier::opaque]
pub open spec fn rows_alike<T>(image: Seq<T>) -> bool {
    &&& image.len() == 5120
    &&& forall|i: int, j: int|
        0 <= i < 5120 && 0 <= j < 5120 && i % 80 == j % 80 ==> #[trigger] image[i]
            == #[trigger] image[j]
}

/// Every column of the image is the same: it varies along `y` only.
#[verifier::opaque]
pub open spec fn columns_alike<T>(image: Seq<T>) -> bool {
    &&& image.len() == 5120
    &&& forall|i: int, j: int|
        0 <= i < 5120 && 0 <= j < 5120 && i / 80 == j / 80 ==> #[trigger] image[i]
            == #[trigger] image[j]
}

proof fn lemma_row_taps(
    image: Seq<u16>,
    kernel: Seq<i32>,
    x: int,
    y: int,
    other_x: int,
    other_y: int,
    n: nat,
)
    requires
        n <= kernel.len(),
        0 <= y < 64,
        0 <= other_y < 64,
    ensures
        rows_alike(image) && x == other_x ==> filter::row_tap_sum(image, kernel, x, y, n)
            == filter::row_tap_sum(image, kernel, other_x, other_y, n),
        columns_alike(image) && y == other_y ==> filter::row_tap_sum(image, kernel, x, y, n)
            == filter::row_tap_sum(image, kernel, other_x, other_y, n),
    decreases n,
{
    reveal(rows_alike);
    reveal(columns_alike);
    if n > 0 {
        lemma_row_taps(image, kernel, x, y, other_x, other_y, (n - 1) as nat);
        let sx = filter::reflect101_spec(x + n - 1 - kernel.len() / 2, 80);
        let ox = filter::reflect101_spec(other_x + n - 1 - kernel.len() / 2, 80);
        filter::lemma_reflect101_range(x + n - 1 - kernel.len() / 2, 80);
        filter::lemma_reflect101_range(other_x + n - 1 - kernel.len() / 2, 80);
        assert(rows_alike(image) && x == other_x ==> image[y * 80 + sx] == image[other_y * 80 + ox]);
        assert(columns_alike(image) && y == other_y ==> image[y * 80 + sx] == image[other_y * 80
            + ox]);
    }
}

proof fn lemma_column_taps(
    image: Seq<u16>,
    kernel: Seq<i32>,
    x: int,
    y: int,
    other_x: int,
    other_y: int,
    n: nat,
)
    requires
        n <= kernel.len(),
        0 <= x < 80,
        0 <= other_x < 80,
    ensures
        rows_alike(image) && x == other_x ==> filter::column_tap_sum(image, kernel, x, y, n)
            == filter::column_tap_sum(image, kernel, other_x, other_y, n),
        columns_alike(image) && y == other_y ==> filter::column_tap_sum(image, kernel, x, y, n)
            == filter::column_tap_sum(image, kernel, other_x, other_y, n),
    decreases n,
{
    reveal(rows_alike);
    reveal(columns_alike);
    if n > 0 {
        lemma_column_taps(image, kernel, x, y, other_x, other_y, (n - 1) as nat);
        let sy = filter::reflect101_spec(y + n - 1 - kernel.len() / 2, 64);
        let oy = filter::reflect101_spec(other_y + n - 1 - kernel.len() / 2, 64);
        filter::lemma_reflect101_range(y + n - 1 - kernel.len() / 2, 64);
        filter::lemma_reflect101_range(other_y + n - 1 - kernel.len() / 2, 64);
        assert(rows_alike(image) && x == other_x ==> image[sy * 80 + x] == image[oy * 80 + other_x]);
        assert(columns_alike(image) && y == other_y ==> image[sy * 80 + x] == image[oy * 80
            + other_x]);
    }
}

/// Filtering keeps stripes: it mixes along an axis, never across to the other.
pub proof fn lemma_filter_keeps_stripes(image: Seq<u16>, kernel: Seq<i32>)
    ensures
        rows_alike(image) ==> rows_alike(filter::separable_q16_spec(image, kernel)),
        columns_alike(image) ==> columns_alike(filter::separable_q16_spec(image, kernel)),
{
    reveal(rows_alike);
    reveal(columns_alike);
    let once = filter::row_filtered(image, kernel);
    let twice = filter::separable_q16_spec(image, kernel);
    if rows_alike(image) {
        assert forall|i: int, j: int|
            0 <= i < 5120 && 0 <= j < 5120 && i % 80 == j % 80 implies #[trigger] once[i]
            == #[trigger] once[j] by {
            lemma_row_taps(image, kernel, i % 80, i / 80, j % 80, j / 80, kernel.len());
        }
        assert(rows_alike(once));
        assert forall|i: int, j: int|
            0 <= i < 5120 && 0 <= j < 5120 && i % 80 == j % 80 implies #[trigger] twice[i]
            == #[trigger] twice[j] by {
            lemma_column_taps(once, kernel, i % 80, i / 80, j % 80, j / 80, kernel.len());
        }
    }
    if columns_alike(image) {
        assert forall|i: int, j: int|
            0 <= i < 5120 && 0 <= j < 5120 && i / 80 == j / 80 implies #[trigger] once[i]
            == #[trigger] once[j] by {
            lemma_row_taps(image, kernel, i % 80, i / 80, j % 80, j / 80, kernel.len());
        }
        assert(columns_alike(once));
        assert forall|i: int, j: int|
            0 <= i < 5120 && 0 <= j < 5120 && i / 80 == j / 80 implies #[trigger] twice[i]
            == #[trigger] twice[j] by {
            lemma_column_taps(once, kernel, i % 80, i / 80, j % 80, j / 80, kernel.len());
        }
    }
}

proof fn lemma_sharpened_stripes(image: Seq<u8>, i: int, j: int)
    requires
        0 <= i < 5120,
        0 <= j < 5120,
    ensures
        rows_alike(image) && i % 80 == j % 80 ==> orientation::sharpened(image, i)
            == orientation::sharpened(image, j),
        columns_alike(image) && i / 80 == j / 80 ==> orientation::sharpened(image, i)
            == orientation::sharpened(image, j),
{
    reveal(rows_alike);
    reveal(columns_alike);
    let wide = detector::widened_image(image);
    let base = orientation::gradient_base(image);
    let blurred = filter::separable_q16_spec(base, orientation::GF3258_GRADIENT_GAUSS_1@);
    if rows_alike(image) {
        assert forall|a: int, b: int|
            0 <= a < 5120 && 0 <= b < 5120 && a % 80 == b % 80 implies #[trigger] wide[a]
            == #[trigger] wide[b] by {
            assert(image[a] == image[b]);
        }
        assert(rows_alike(wide));
    }
    if columns_alike(image) {
        assert forall|a: int, b: int|
            0 <= a < 5120 && 0 <= b < 5120 && a / 80 == b / 80 implies #[trigger] wide[a]
            == #[trigger] wide[b] by {
            assert(image[a] == image[b]);
        }
        assert(columns_alike(wide));
    }
    lemma_filter_keeps_stripes(wide, orientation::GF3258_GRADIENT_GAUSS_0@);
    lemma_filter_keeps_stripes(base, orientation::GF3258_GRADIENT_GAUSS_1@);
    if rows_alike(image) && i % 80 == j % 80 {
        assert(base[i] == base[j] && blurred[i] == blurred[j]);
    }
    if columns_alike(image) && i / 80 == j / 80 {
        assert(base[i] == base[j] && blurred[i] == blurred[j]);
    }
}

/// The gradient of stripes points along the axis that they vary on: in an image
/// that varies along `x` it has the angle zero where the sharpened image grows, and
/// `pi` elsewhere; in one that varies along `y` it has a quarter turn up where it
/// grows, a quarter turn down where it falls, and `pi` where it is flat.
pub proof fn lemma_gradient_of_stripes(image: Seq<u8>, x: int, y: int)
    requires
        1 <= x < 79,
        1 <= y < 63,
    ensures
        ({
            let i = y * 80 + x;
            let angle = orientation::gradient_angles(image)[i];
            let across = orientation::sharpened(image, i + 1) - orientation::sharpened(
                image,
                i - 1,
            );
            let down = orientation::sharpened(image, i + 80) - orientation::sharpened(
                image,
                i - 80,
            );
            &&& rows_alike(image) ==> down == 0 && angle == (if across > 0 {
                0int
            } else {
                0x3244int
            })
            &&& columns_alike(image) ==> across == 0 && angle == (if down > 0 {
                0x1922int
            } else if down < 0 {
                65536 - 0x1922
            } else {
                0x3244int
            })
        }),
{
    let i = y * 80 + x;
    assert(i % 80 == x && i / 80 == y);
    assert((i + 80) % 80 == x && (i - 80) % 80 == x);
    assert((i + 1) / 80 == y && (i - 1) / 80 == y);
    lemma_sharpened_stripes(image, i + 80, i - 80);
    lemma_sharpened_stripes(image, i + 1, i - 1);
    lemma_sharpened_bound(image, i + 1);
    lemma_sharpened_bound(image, i - 1);
    lemma_sharpened_bound(image, i + 80);
    lemma_sharpened_bound(image, i - 80);
    assert((-0x1922i16) as u16 == 59102u16) by (bit_vector);
}

proof fn lemma_sharpened_bound(image: Seq<u8>, i: int)
    ensures
        -9 * 65535 <= orientation::sharpened(image, i) <= 10 * 65535,
{
}

/// The ridges of stripes: an image that varies along `x` has them upright, at 90
/// degrees, and one that varies along `y` has them level, at zero, wherever the
/// window around the pixel sees any gradient.
pub proof fn lemma_ridges_of_stripes(image: Seq<u8>, i: int)
    requires
        0 <= i < 5120,
        image.len() == 5120,
    ensures
        rows_alike(image) && 0 < orientation::tensor_around(orientation::tensor_diff(image), i)
            <= i32::MAX ==> orientation::direction_map_spec(image)[i] == 90,
        columns_alike(image) && i32::MIN < orientation::tensor_around(
            orientation::tensor_diff(image),
            i,
        ) < 0 ==> orientation::direction_map_spec(image)[i] == 0,
        rows_alike(image) ==> orientation::tensor_around(orientation::tensor_diff(image), i) >= 0,
        columns_alike(image) ==> orientation::tensor_around(orientation::tensor_diff(image), i)
            <= 0,
{
    let cross = orientation::tensor_cross(image);
    let diff = orientation::tensor_diff(image);
    assert forall|k: int| 0 <= k < 5120 && (rows_alike(image) || columns_alike(image)) implies (
    #[trigger] cross[k]) == 0 by {
        lemma_sobel_of_stripes(image, k);
    }
    assert forall|k: int| 0 <= k < 5120 implies (rows_alike(image) ==> #[trigger] diff[k] >= 0) && (
    columns_alike(image) ==> diff[k] <= 0) by {
        lemma_sobel_of_stripes(image, k);
    }
    let x = i % 80;
    let y = i / 80;
    let x0 = orientation::window_low(x);
    let y0 = orientation::window_low(y);
    let x1 = orientation::window_high(x, 80);
    let y1 = orientation::window_high(y, 64);
    if rows_alike(image) {
        lemma_window_sign(cross, x0, y0, x1, y1, 0, 0);
        lemma_window_sign(diff, x0, y0, x1, y1, 0, 1);
        if 0 < orientation::tensor_around(diff, i) <= i32::MAX {
            lemma_upright_and_level(orientation::tensor_around(diff, i) as i32);
        }
    }
    if columns_alike(image) {
        lemma_window_sign(cross, x0, y0, x1, y1, 0, 0);
        lemma_window_sign(diff, x0, y0, x1, y1, -1, 0);
        if i32::MIN < orientation::tensor_around(diff, i) < 0 {
            lemma_upright_and_level(orientation::tensor_around(diff, i) as i32);
        }
    }
}

proof fn lemma_upright_and_level(diff: i32)
    requires
        diff != 0,
        diff > i32::MIN,
    ensures
        orientation::ridge_direction(diff, 0) == (if diff > 0 {
            90int
        } else {
            0int
        }),
{
    assert(0x1922u16 as i16 == 0x1922i16) by (bit_vector);
    orientation::lemma_i16_pattern(-0x1922i16);
    assert((90i32 as i8) as int == 90 && (180i32 as i8) as int == -76 && (90i8 as u8) as int == 90)
        by (bit_vector);
}

pub proof fn lemma_alike(image: Seq<u8>, i: int, j: int)
    requires
        0 <= i < 5120,
        0 <= j < 5120,
    ensures
        rows_alike(image) && i % 80 == j % 80 ==> image[i] == image[j],
        columns_alike(image) && i / 80 == j / 80 ==> image[i] == image[j],
{
    reveal(rows_alike);
    reveal(columns_alike);
}

proof fn lemma_sobel_along(image: Seq<u8>, k: int)
    requires
        0 <= k < 5120,
    ensures
        rows_alike(image) ==> orientation::sobel_y(image, k) == 0,
        columns_alike(image) ==> orientation::sobel_x(image, k) == 0,
        -1020 <= orientation::sobel_x(image, k) <= 1020,
        -1020 <= orientation::sobel_y(image, k) <= 1020,
{
    if orientation::is_interior(k) {
        let x = k % 80;
        let y = k / 80;
        assert(k == y * 80 + x && 1 <= x < 79 && 1 <= y < 63);
        assert((k + 80) % 80 == x && (k - 80) % 80 == x);
        assert((k + 81) % 80 == x + 1 && (k - 79) % 80 == x + 1);
        assert((k + 79) % 80 == x - 1 && (k - 81) % 80 == x - 1);
        assert((k + 1) / 80 == y && (k - 1) / 80 == y);
        assert((k + 81) / 80 == y + 1 && (k + 79) / 80 == y + 1);
        assert((k - 79) / 80 == y - 1 && (k - 81) / 80 == y - 1);
        lemma_alike(image, k + 80, k - 80);
        lemma_alike(image, k + 81, k - 79);
        lemma_alike(image, k + 79, k - 81);
        lemma_alike(image, k + 1, k - 1);
        lemma_alike(image, k + 81, k + 79);
        lemma_alike(image, k - 79, k - 81);
    }
}

proof fn lemma_sobel_of_stripes(image: Seq<u8>, k: int)
    requires
        0 <= k < 5120,
    ensures
        rows_alike(image) || columns_alike(image) ==> orientation::tensor_cross(image)[k] == 0,
        rows_alike(image) ==> orientation::tensor_diff(image)[k] >= 0,
        columns_alike(image) ==> orientation::tensor_diff(image)[k] <= 0,
{
    let gx = orientation::sobel_x(image, k);
    let gy = orientation::sobel_y(image, k);
    lemma_sobel_along(image, k);
    assert(0 <= gx * gx <= 1020 * 1020 && 0 <= gy * gy <= 1020 * 1020) by (nonlinear_arith)
        requires
            -1020 <= gx <= 1020,
            -1020 <= gy <= 1020,
    ;
    if gx == 0 || gy == 0 {
        assert(gx * gy == 0 && (gx == 0 ==> gx * gx == 0) && (gy == 0 ==> gy * gy == 0))
            by (nonlinear_arith)
            requires
                gx == 0 || gy == 0,
        ;
    }
}

proof fn lemma_row_sign(source: Seq<i32>, y: int, x0: int, x1: int, low: int, high: int)
    requires
        source.len() == 5120,
        0 <= y < 64,
        0 <= x0,
        x1 < 80,
        forall|k: int|
            0 <= k < 5120 ==> (low == 0 ==> #[trigger] source[k] >= 0) && (high == 0 ==> source[k]
                <= 0),
    ensures
        low == 0 ==> orientation::row_sum(source, y, x0, x1) >= 0,
        high == 0 ==> orientation::row_sum(source, y, x0, x1) <= 0,
    decreases x1 - x0 + 1,
{
    if x0 <= x1 {
        lemma_row_sign(source, y, x0, x1 - 1, low, high);
        assert(0 <= y * 80 + x1 < 5120);
        assert(low == 0 ==> source[y * 80 + x1] >= 0);
        assert(high == 0 ==> source[y * 80 + x1] <= 0);
    }
}

proof fn lemma_window_sign(
    source: Seq<i32>,
    x0: int,
    y0: int,
    x1: int,
    y1: int,
    low: int,
    high: int,
)
    requires
        source.len() == 5120,
        0 <= x0,
        0 <= y0,
        x1 < 80,
        y1 < 64,
        forall|k: int|
            0 <= k < 5120 ==> (low == 0 ==> #[trigger] source[k] >= 0) && (high == 0 ==> source[k]
                <= 0),
    ensures
        low == 0 ==> orientation::window_sum(source, x0, y0, x1, y1) >= 0,
        high == 0 ==> orientation::window_sum(source, x0, y0, x1, y1) <= 0,
    decreases y1 - y0 + 1,
{
    if y0 <= y1 {
        lemma_window_sign(source, x0, y0, x1, y1 - 1, low, high);
        lemma_row_sign(source, y1, x0, x1, low, high);
    }
}

/// Bins are ten degrees wide and centred: an angle falls into the bin whose centre,
/// counted down from `pi`, is at most five degrees away; the last half bin wraps.
pub proof fn lemma_bin_is_nearest(angle: int)
    requires
        -0x3244 <= angle <= 0x3244,
    ensures
        ({
            let bin = orientation::orientation_bin_spec(angle);
            let from_top = 36 * (0x3244 - angle);
            &&& 0 <= bin < 36
            &&& bin * 25736 - 12868 <= from_top < bin * 25736 + 12868 || (bin == 0 && 36 * 25736
                - 12868 <= from_top <= 36 * 25736)
        }),
{
}

/// The interpolated peak of a bin that neither neighbour exceeds lies at most half a
/// bin away, on the side of the larger neighbour, and on the bin where they are
/// equal.
pub proof fn lemma_peak_leans_to_larger(h: Seq<u32>, bin: int)
    requires
        h.len() == 36,
        1 <= bin < 35,
        h[bin - 1] <= h[bin],
        h[bin + 1] <= h[bin],
        h[bin - 1] < h[bin] || h[bin + 1] < h[bin],
    ensures
        ({
            let peak = orientation::interpolated_peak_spec(h, bin);
            &&& bin * 512 - 257 <= peak <= bin * 512 + 257
            &&& h[bin - 1] == h[bin + 1] ==> peak == bin * 512
            &&& h[bin - 1] > h[bin + 1] ==> peak <= bin * 512
            &&& (h[bin + 1] - h[bin - 1]) * 512 > 2 * h[bin] - h[bin - 1] - h[bin + 1] ==> peak
                >= bin * 512
            &&& h[bin - 1] == h[bin] ==> peak <= bin * 512 - 256
            &&& h[bin + 1] == h[bin] ==> peak >= bin * 512 + 255
        }),
{
    let prev = h[bin - 1] as int;
    let next = h[bin + 1] as int;
    let current = h[bin] as int;
    assert((bin + 35) % 36 == bin - 1 && (bin + 1) % 36 == bin + 1);
    let c = 2 * current - prev - next;
    let numerator = (prev - next) * 512 + c;
    let q = crate::arith::trunc_div(numerator, -2 * c);
    assert(orientation::peak_curvature(h, bin) == -c);
    assert(-511 * c <= numerator <= 513 * c);
    if numerator >= 0 {
        assert(-257 <= q <= 0) by (nonlinear_arith)
            requires
                q == numerator / (-2 * c),
                0 <= numerator <= 513 * c,
                c > 0,
        ;
        if prev == next {
            assert(q == 0) by (nonlinear_arith)
                requires
                    q == numerator / (-2 * c),
                    numerator == c,
                    c > 0,
            ;
        }
        if prev == current {
            assert(q <= -256) by (nonlinear_arith)
                requires
                    q == numerator / (-2 * c),
                    numerator == 513 * c,
                    c > 0,
            ;
        }
    } else {
        assert(0 <= q <= 257) by (nonlinear_arith)
            requires
                q == -((-numerator) / (-2 * c)),
                0 < -numerator <= 513 * c,
                c > 0,
        ;
        if next == current {
            assert(q >= 255) by (nonlinear_arith)
                requires
                    q == -((-numerator) / (-2 * c)),
                    -numerator == 511 * c,
                    c > 0,
            ;
        }
    }
}

} // verus!
