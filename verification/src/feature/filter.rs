//! Shared fixed-point image filtering primitives for GF3258 feature processing.
//!
//! The border rule is REFLECT_101 and each separable pass drops the Q16
//! fraction before the next one starts.
use vstd::prelude::*;

use crate::arith;
use crate::feature::{GF3258_HEIGHT, GF3258_PIXELS, GF3258_WIDTH};

verus! {

/// Position inside `0..n` that REFLECT_101 assigns to `p`: the axis is folded
/// like a triangle wave whose corners are `0` and `n - 1`, so that neither edge
/// sample is repeated.
pub open spec fn reflect101_spec(p: int, n: int) -> int {
    if n == 1 {
        0
    } else {
        let phase = p % (2 * (n - 1));
        if phase < n {
            phase
        } else {
            2 * (n - 1) - phase
        }
    }
}

/// Folding the axis about `0` or about `n - 1` does not move the reflection.
proof fn lemma_reflect101_fold(p: int, n: int)
    requires
        n >= 2,
    ensures
        reflect101_spec(-p, n) == reflect101_spec(p, n),
        reflect101_spec(2 * n - p - 2, n) == reflect101_spec(p, n),
        0 <= reflect101_spec(p, n) < n,
        0 <= p < n ==> reflect101_spec(p, n) == p,
{
    let k = 2 * (n - 1);
    let q = p / k;
    let r = p % k;
    vstd::arithmetic::div_mod::lemma_fundamental_div_mod(p, k);
    vstd::arithmetic::div_mod::lemma_mod_bound(p, k);
    if r == 0 {
        assert(-p == (-q) * k + 0) by (nonlinear_arith)
            requires
                p == k * q + 0,
        ;
        vstd::arithmetic::div_mod::lemma_fundamental_div_mod_converse_mod(-p, k, -q, 0);
        assert(k - p == (1 - q) * k + 0) by (nonlinear_arith)
            requires
                p == k * q + 0,
        ;
        vstd::arithmetic::div_mod::lemma_fundamental_div_mod_converse_mod(k - p, k, 1 - q, 0);
    } else {
        assert(-p == (-q - 1) * k + (k - r)) by (nonlinear_arith)
            requires
                p == k * q + r,
        ;
        vstd::arithmetic::div_mod::lemma_fundamental_div_mod_converse_mod(-p, k, -q - 1, k - r);
        assert(k - p == (-q) * k + (k - r)) by (nonlinear_arith)
            requires
                p == k * q + r,
        ;
        vstd::arithmetic::div_mod::lemma_fundamental_div_mod_converse_mod(k - p, k, -q, k - r);
    }
    if 0 <= p < n {
        vstd::arithmetic::div_mod::lemma_small_mod(p as nat, k as nat);
    }
}

/// A reflected position is inside the axis, and a position already inside stays
/// where it is.
pub proof fn lemma_reflect101_range(p: int, n: int)
    requires
        n >= 1,
    ensures
        0 <= reflect101_spec(p, n) < n,
        0 <= p < n ==> reflect101_spec(p, n) == p,
{
    if n >= 2 {
        lemma_reflect101_fold(p, n);
    }
}

/// BORDER_REFLECT_101 on an axis of `len` samples.
pub fn reflect101(p: isize, len: usize) -> (q: usize)
    requires
        0 < len <= isize::MAX / 2,
        p > isize::MIN,
    ensures
        q == reflect101_spec(p as int, len as int),
        q < len,
{
    if len == 1 {
        return 0;
    }
    let n: isize = len as isize;
    let mut r: isize = p;
    proof {
        lemma_reflect101_fold(p as int, n as int);
    }
    while r < 0 || r >= n
        invariant
            n == len,
            2 <= n <= isize::MAX / 2,
            r > isize::MIN,
            reflect101_spec(r as int, n as int) == reflect101_spec(p as int, n as int),
        decreases 2 * arith::abs(r as int) + (if r < 0 { 1int } else { 0int }),
    {
        proof {
            lemma_reflect101_fold(r as int, n as int);
        }
        if r < 0 {
            r = -r;
        } else {
            r = 2 * n - r - 2;
        }
    }
    proof {
        lemma_reflect101_fold(r as int, n as int);
    }
    r as usize
}

/// A Q16 sum with its fraction dropped, kept in 16 bits.
pub open spec fn q16_floor_u16(sum: int) -> u16 {
    (sum / 65536) as u16
}

/// Sum of the first `n` kernel taps along the row of pixel `(x, y)`.
pub open spec fn row_tap_sum(image: Seq<u16>, kernel: Seq<i32>, x: int, y: int, n: nat) -> int
    decreases n,
{
    if n == 0 {
        0
    } else {
        let tap = n - 1;
        let sx = reflect101_spec(x + tap - kernel.len() / 2, GF3258_WIDTH as int);
        row_tap_sum(image, kernel, x, y, (n - 1) as nat)
            + image[y * GF3258_WIDTH + sx] * kernel[tap]
    }
}

/// Sum of the first `n` kernel taps along the column of pixel `(x, y)`.
pub open spec fn column_tap_sum(image: Seq<u16>, kernel: Seq<i32>, x: int, y: int, n: nat) -> int
    decreases n,
{
    if n == 0 {
        0
    } else {
        let tap = n - 1;
        let sy = reflect101_spec(y + tap - kernel.len() / 2, GF3258_HEIGHT as int);
        column_tap_sum(image, kernel, x, y, (n - 1) as nat)
            + image[sy * GF3258_WIDTH + x] * kernel[tap]
    }
}

/// The image after the horizontal pass.
pub open spec fn row_filtered(image: Seq<u16>, kernel: Seq<i32>) -> Seq<u16> {
    Seq::new(
        GF3258_PIXELS as nat,
        |i: int|
            q16_floor_u16(
                row_tap_sum(image, kernel, i % GF3258_WIDTH as int, i / GF3258_WIDTH as int, kernel.len()),
            ),
    )
}

/// The image after the vertical pass.
pub open spec fn column_filtered(image: Seq<u16>, kernel: Seq<i32>) -> Seq<u16> {
    Seq::new(
        GF3258_PIXELS as nat,
        |i: int|
            q16_floor_u16(
                column_tap_sum(image, kernel, i % GF3258_WIDTH as int, i / GF3258_WIDTH as int, kernel.len()),
            ),
    )
}

/// Separable Q16 filtering: rows first, then columns.
pub open spec fn separable_q16_spec(image: Seq<u16>, kernel: Seq<i32>) -> Seq<u16> {
    column_filtered(row_filtered(image, kernel), kernel)
}

/// One kernel tap adds at most `65535 * 2^31` to a sum.
proof fn lemma_tap_bound(sample: u16, coeff: i32)
    ensures
        -0x8000_0000_0000 < sample * coeff < 0x8000_0000_0000,
{
    assert(-0x8000_0000_0000 < sample * coeff < 0x8000_0000_0000) by (nonlinear_arith)
        requires
            0 <= sample <= 0xffff,
            -0x8000_0000 <= coeff <= 0x7fff_ffff,
    ;
}

fn row_pass(source: &[u16], kernel: &[i32]) -> (out: Vec<u16>)
    requires
        source@.len() == GF3258_PIXELS,
        kernel@.len() <= 0xffff,
    ensures
        out@ == row_filtered(source@, kernel@),
{
    let radius: isize = (kernel.len() / 2) as isize;
    let mut out: Vec<u16> = Vec::with_capacity(GF3258_PIXELS);
    for i in 0..GF3258_PIXELS
        invariant
            source@.len() == GF3258_PIXELS,
            kernel@.len() <= 0xffff,
            radius == kernel@.len() / 2,
            out@.len() == i,
            forall|j: int| 0 <= j < i ==> out@[j] == row_filtered(source@, kernel@)[j],
    {
        let x: usize = i % GF3258_WIDTH;
        let y: usize = i / GF3258_WIDTH;
        let mut acc: i64 = 0;
        for tap in 0..kernel.len()
            invariant
                source@.len() == GF3258_PIXELS,
                kernel@.len() <= 0xffff,
                radius == kernel@.len() / 2,
                x < GF3258_WIDTH,
                y < GF3258_HEIGHT,
                acc == row_tap_sum(source@, kernel@, x as int, y as int, tap as nat),
                -0x8000_0000_0000 * tap <= acc <= 0x8000_0000_0000 * tap,
        {
            let sx: usize = reflect101(x as isize + tap as isize - radius, GF3258_WIDTH);
            proof {
                lemma_tap_bound(source@[y * GF3258_WIDTH + sx], kernel@[tap as int]);
            }
            acc = acc + (source[y * GF3258_WIDTH + sx] as i64) * (kernel[tap] as i64);
        }
        proof {
            arith::lemma_i64_shr_fixed(acc);
        }
        out.push((acc >> 16u64) as u16);
    }
    out
}

fn column_pass(source: &[u16], kernel: &[i32]) -> (out: Vec<u16>)
    requires
        source@.len() == GF3258_PIXELS,
        kernel@.len() <= 0xffff,
    ensures
        out@ == column_filtered(source@, kernel@),
{
    let radius: isize = (kernel.len() / 2) as isize;
    let mut out: Vec<u16> = Vec::with_capacity(GF3258_PIXELS);
    for i in 0..GF3258_PIXELS
        invariant
            source@.len() == GF3258_PIXELS,
            kernel@.len() <= 0xffff,
            radius == kernel@.len() / 2,
            out@.len() == i,
            forall|j: int| 0 <= j < i ==> out@[j] == column_filtered(source@, kernel@)[j],
    {
        let x: usize = i % GF3258_WIDTH;
        let y: usize = i / GF3258_WIDTH;
        let mut acc: i64 = 0;
        for tap in 0..kernel.len()
            invariant
                source@.len() == GF3258_PIXELS,
                kernel@.len() <= 0xffff,
                radius == kernel@.len() / 2,
                x < GF3258_WIDTH,
                y < GF3258_HEIGHT,
                acc == column_tap_sum(source@, kernel@, x as int, y as int, tap as nat),
                -0x8000_0000_0000 * tap <= acc <= 0x8000_0000_0000 * tap,
        {
            let sy: usize = reflect101(y as isize + tap as isize - radius, GF3258_HEIGHT);
            proof {
                lemma_tap_bound(source@[sy * GF3258_WIDTH + x], kernel@[tap as int]);
            }
            acc = acc + (source[sy * GF3258_WIDTH + x] as i64) * (kernel[tap] as i64);
        }
        proof {
            arith::lemma_i64_shr_fixed(acc);
        }
        out.push((acc >> 16u64) as u16);
    }
    out
}

/// Filters an 80x64 image with one odd-length kernel along rows and then along
/// columns, truncating the Q16 sum after each pass.
pub fn separable_q16_reflect101(source: &[u16], kernel: &[i32]) -> (out: Vec<u16>)
    requires
        source@.len() == GF3258_PIXELS,
        kernel@.len() % 2 == 1,
        kernel@.len() <= 0xffff,
    ensures
        out@ == separable_q16_spec(source@, kernel@),
{
    let horizontal: Vec<u16> = row_pass(source, kernel);
    column_pass(horizontal.as_slice(), kernel)
}

} // verus!
