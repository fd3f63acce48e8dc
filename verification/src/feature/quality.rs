//! Capture-quality computation for GF3258: the foreground mask, the block-wise
//! orientation coherence, the ridge-shape classifier and the coverage rules.
use vstd::prelude::*;

use crate::arith;
use crate::feature::validity;
use crate::feature::{FeatureError, GF3258_HEIGHT, GF3258_PIXELS, GF3258_WIDTH};

verus! {

pub const GF3258_CAPTURE_COVERAGE_THRESHOLD: u16 = 120;

pub const GF3258_QUALITY_WINDOW_RADIUS: usize = 9;

pub const GF3258_QUALITY_WINDOW_STEP: usize = 6;

pub const GF3258_QUALITY_MIN_MASK_PIXELS: i32 = 180;

pub const GF3258_QUALITY_MIN_TENSOR_PIXELS: i32 = 60;

pub const GF3258_QUALITY_STRENGTH_THRESHOLD: i32 = 25;

pub const GF3258_RAW_QUALITY_CLASSIFIER_THRESHOLD: i32 = 70;

pub const GF3258_RAW_QUALITY_ACCEPT_THRESHOLD: i32 = 45;

pub const GF3258_CLASS4_REFERENCE_PERCENT: i32 = 35;

pub const GF3258_MASK_COVERAGE_LOSS_Q16: i32 = 0x3333;

/// Quality of one capture.
#[derive(Debug, Clone, Copy, PartialEq, Eq)]
pub struct Gf3258CaptureQuality {
    pub raw_quality: i32,
    pub quality: i32,
    pub coverage: i32,
    pub mask_coverage_q16: i32,
    pub coverage_q16: i32,
    pub class4_percent: Option<i32>,
}

impl Gf3258CaptureQuality {
    pub fn accepted_for_enrollment(self) -> (r: bool)
        ensures
            r == (self.raw_quality >= GF3258_RAW_QUALITY_ACCEPT_THRESHOLD),
    {
        self.raw_quality >= GF3258_RAW_QUALITY_ACCEPT_THRESHOLD
    }

    pub fn raw_quality_rejected(self) -> (r: bool)
        ensures
            r == (self.raw_quality < GF3258_RAW_QUALITY_ACCEPT_THRESHOLD),
    {
        !self.accepted_for_enrollment()
    }
}

/// `(x, y)` is a pixel of the image that is not fully white.
pub open spec fn is_foreground(source: Seq<u8>, x: int, y: int) -> bool {
    0 <= x < GF3258_WIDTH && 0 <= y < GF3258_HEIGHT && source[y * GF3258_WIDTH + x] != 0xff
}

/// `(x, y)` or a pixel at most two steps along a row or column is foreground.
pub open spec fn near_foreground(source: Seq<u8>, x: int, y: int) -> bool {
    ||| is_foreground(source, x, y)
    ||| is_foreground(source, x - 1, y)
    ||| is_foreground(source, x + 1, y)
    ||| is_foreground(source, x - 2, y)
    ||| is_foreground(source, x + 2, y)
    ||| is_foreground(source, x, y - 1)
    ||| is_foreground(source, x, y + 1)
    ||| is_foreground(source, x, y - 2)
    ||| is_foreground(source, x, y + 2)
}

/// The dilated foreground mask.
pub open spec fn quality_mask_spec(source: Seq<u8>) -> Seq<u8> {
    Seq::new(
        GF3258_PIXELS as nat,
        |i: int|
            if near_foreground(source, i % GF3258_WIDTH as int, i / GF3258_WIDTH as int) {
                0xffu8
            } else {
                0u8
            },
    )
}

fn foreground_at(source: &[u8], x: isize, y: isize) -> (r: bool)
    requires
        source@.len() == GF3258_PIXELS,
        -100 <= x <= 100,
        -100 <= y <= 100,
    ensures
        r == is_foreground(source@, x as int, y as int),
{
    if x < 0 || x >= GF3258_WIDTH as isize || y < 0 || y >= GF3258_HEIGHT as isize {
        false
    } else {
        source[y as usize * GF3258_WIDTH + x as usize] != 0xff
    }
}

fn gf3258_quality_mask(source_u8: &[u8]) -> (mask: Vec<u8>)
    requires
        source_u8@.len() == GF3258_PIXELS,
    ensures
        mask@ == quality_mask_spec(source_u8@),
{
    let mut mask: Vec<u8> = Vec::with_capacity(GF3258_PIXELS);
    for i in 0..GF3258_PIXELS
        invariant
            source_u8@.len() == GF3258_PIXELS,
            mask@.len() == i,
            forall|j: int| 0 <= j < i ==> mask@[j] == quality_mask_spec(source_u8@)[j],
    {
        let x: isize = (i % GF3258_WIDTH) as isize;
        let y: isize = (i / GF3258_WIDTH) as isize;
        let active: bool = foreground_at(source_u8, x, y) || foreground_at(source_u8, x - 1, y)
            || foreground_at(source_u8, x + 1, y) || foreground_at(source_u8, x - 2, y)
            || foreground_at(source_u8, x + 2, y) || foreground_at(source_u8, x, y - 1)
            || foreground_at(source_u8, x, y + 1) || foreground_at(source_u8, x, y - 2)
            || foreground_at(source_u8, x, y + 2);
        if active {
            mask.push(0xff);
        } else {
            mask.push(0);
        }
    }
    proof {
        assert(mask@ =~= quality_mask_spec(source_u8@));
    }
    mask
}

/// An interior pixel whose 3x3 neighbourhood is masked throughout.
pub open spec fn fully_masked(mask: Seq<u8>, i: int) -> bool {
    let x = i % GF3258_WIDTH as int;
    let y = i / GF3258_WIDTH as int;
    &&& 1 <= x < GF3258_WIDTH - 1
    &&& 1 <= y < GF3258_HEIGHT - 1
    &&& mask[i - GF3258_WIDTH - 1] != 0
    &&& mask[i - GF3258_WIDTH] != 0
    &&& mask[i - GF3258_WIDTH + 1] != 0
    &&& mask[i - 1] != 0
    &&& mask[i] != 0
    &&& mask[i + 1] != 0
    &&& mask[i + GF3258_WIDTH - 1] != 0
    &&& mask[i + GF3258_WIDTH] != 0
    &&& mask[i + GF3258_WIDTH + 1] != 0
}

/// Central differences at pixel `i`; zero where the neighbourhood is not masked.
pub open spec fn plane_dx(source: Seq<u8>, mask: Seq<u8>, i: int) -> int {
    if fully_masked(mask, i) {
        source[i + 1] - source[i - 1]
    } else {
        0
    }
}

pub open spec fn plane_dy(source: Seq<u8>, mask: Seq<u8>, i: int) -> int {
    if fully_masked(mask, i) {
        source[i + GF3258_WIDTH] - source[i - GF3258_WIDTH]
    } else {
        0
    }
}

pub open spec fn plane_strength(source: Seq<u8>, mask: Seq<u8>, i: int) -> int {
    plane_dx(source, mask, i) * plane_dx(source, mask, i) + plane_dy(source, mask, i) * plane_dy(
        source,
        mask,
        i,
    )
}

/// The differences at every pixel.
fn gf3258_quality_planes(source_u8: &[u8], mask: &Vec<u8>) -> (r: (Vec<i32>, Vec<i32>))
    requires
        source_u8@.len() == GF3258_PIXELS,
        mask@.len() == GF3258_PIXELS,
    ensures
        r.0@.len() == GF3258_PIXELS,
        r.1@.len() == GF3258_PIXELS,
        forall|i: int|
            0 <= i < GF3258_PIXELS ==> #[trigger] r.0@[i] == plane_dx(source_u8@, mask@, i) && -255
                <= r.0@[i] <= 255,
        forall|i: int|
            0 <= i < GF3258_PIXELS ==> #[trigger] r.1@[i] == plane_dy(source_u8@, mask@, i) && -255
                <= r.1@[i] <= 255,
{
    let mut dx_plane: Vec<i32> = Vec::with_capacity(GF3258_PIXELS);
    let mut dy_plane: Vec<i32> = Vec::with_capacity(GF3258_PIXELS);
    for i in 0..GF3258_PIXELS
        invariant
            source_u8@.len() == GF3258_PIXELS,
            mask@.len() == GF3258_PIXELS,
            dx_plane@.len() == i,
            dy_plane@.len() == i,
            forall|j: int|
                0 <= j < i ==> #[trigger] dx_plane@[j] == plane_dx(source_u8@, mask@, j) && -255
                    <= dx_plane@[j] <= 255,
            forall|j: int|
                0 <= j < i ==> #[trigger] dy_plane@[j] == plane_dy(source_u8@, mask@, j) && -255
                    <= dy_plane@[j] <= 255,
    {
        let x: usize = i % GF3258_WIDTH;
        let y: usize = i / GF3258_WIDTH;
        let inside: bool = 1 <= x && x < GF3258_WIDTH - 1 && 1 <= y && y < GF3258_HEIGHT - 1;
        if inside && mask[i - GF3258_WIDTH - 1] != 0 && mask[i - GF3258_WIDTH] != 0 && mask[i
            - GF3258_WIDTH + 1] != 0 && mask[i - 1] != 0 && mask[i] != 0 && mask[i + 1] != 0
            && mask[i + GF3258_WIDTH - 1] != 0 && mask[i + GF3258_WIDTH] != 0 && mask[i
            + GF3258_WIDTH + 1] != 0 {
            dx_plane.push(source_u8[i + 1] as i32 - source_u8[i - 1] as i32);
            dy_plane.push(
                source_u8[i + GF3258_WIDTH] as i32 - source_u8[i - GF3258_WIDTH] as i32,
            );
        } else {
            dx_plane.push(0);
            dy_plane.push(0);
        }
    }
    (dx_plane, dy_plane)
}

/// The eleven by eight block centres, six pixels apart, in raster order.
pub open spec fn block_center(b: int) -> int {
    (9 + 6 * (b / 11)) * GF3258_WIDTH + 9 + 6 * (b % 11)
}

/// Pixel `k` of the 19x19 window around block `b`.
pub open spec fn window_pixel(b: int, k: int) -> int {
    (6 * (b / 11) + k / 19) * GF3258_WIDTH + 6 * (b % 11) + k % 19
}

/// Number of masked pixels among the first `n` of the window.
pub open spec fn window_mask_count(mask: Seq<u8>, b: int, n: nat) -> int
    decreases n,
{
    if n == 0 {
        0
    } else {
        window_mask_count(mask, b, (n - 1) as nat) + if mask[window_pixel(b, n - 1)] != 0 {
            1int
        } else {
            0int
        }
    }
}

/// Structure-tensor sums over the strong pixels of a window.
pub struct TensorSums {
    pub count: int,
    pub xx: int,
    pub yy: int,
    pub xy: int,
}

pub open spec fn window_tensor(source: Seq<u8>, mask: Seq<u8>, b: int, n: nat) -> TensorSums
    decreases n,
{
    if n == 0 {
        TensorSums { count: 0, xx: 0, yy: 0, xy: 0 }
    } else {
        let t = window_tensor(source, mask, b, (n - 1) as nat);
        let i = window_pixel(b, n - 1);
        if plane_strength(source, mask, i) >= GF3258_QUALITY_STRENGTH_THRESHOLD {
            let dx = plane_dx(source, mask, i);
            let dy = plane_dy(source, mask, i);
            TensorSums { count: t.count + 1, xx: t.xx + dx * dx, yy: t.yy + dy * dy, xy: t.xy + dy * dx }
        } else {
            t
        }
    }
}

/// Coherence of a tensor in Q16: one minus the determinant over the squared mean.
pub open spec fn tensor_quality(t: TensorSums) -> int {
    if t.count < GF3258_QUALITY_MIN_TENSOR_PIXELS {
        0
    } else {
        let half = t.count / 2;
        let a = (t.xx + half) / t.count;
        let b = (t.yy + half) / t.count;
        let c = arith::trunc_div(t.xy + half, t.count);
        let mean = (a + b) / 2;
        let ratio = arith::trunc_div((a * b - c * c) * 65536, mean * mean + 1) as i32;
        let spread: int = if ratio < 0 {
            0
        } else {
            ratio as int
        };
        if spread > 65536 {
            0
        } else {
            65536 - spread
        }
    }
}

/// A block is scored when its centre is masked and enough of its window is.
pub open spec fn block_scored(mask: Seq<u8>, b: int) -> bool {
    mask[block_center(b)] != 0 && window_mask_count(mask, b, 361) >= GF3258_QUALITY_MIN_MASK_PIXELS
}

pub open spec fn block_quality(source: Seq<u8>, mask: Seq<u8>, b: int) -> int {
    tensor_quality(window_tensor(source, mask, b, 361))
}

/// Block quality in percent.
pub open spec fn block_score(source: Seq<u8>, mask: Seq<u8>, b: int) -> int {
    block_quality(source, mask, b) * 100 / 65536
}

/// Number of scored blocks among the first `n`.
pub open spec fn scored_blocks(mask: Seq<u8>, n: nat) -> int
    decreases n,
{
    if n == 0 {
        0
    } else {
        scored_blocks(mask, (n - 1) as nat) + if block_scored(mask, n - 1) {
            1int
        } else {
            0int
        }
    }
}

/// Sum of the qualities of the scored blocks among the first `n`.
pub open spec fn quality_total(source: Seq<u8>, mask: Seq<u8>, n: nat) -> int
    decreases n,
{
    if n == 0 {
        0
    } else {
        quality_total(source, mask, (n - 1) as nat) + if block_scored(mask, n - 1) {
            block_quality(source, mask, n - 1)
        } else {
            0
        }
    }
}

/// Number of scored blocks among the first `n` whose score is at most `s`.
pub open spec fn blocks_at_most(source: Seq<u8>, mask: Seq<u8>, s: int, n: nat) -> int
    decreases n,
{
    if n == 0 {
        0
    } else {
        blocks_at_most(source, mask, s, (n - 1) as nat) + if block_scored(mask, n - 1)
            && block_score(source, mask, n - 1) <= s {
            1int
        } else {
            0int
        }
    }
}

/// The least score from `s` on at which half of the scored blocks are reached.
pub open spec fn score_cutoff(source: Seq<u8>, mask: Seq<u8>, s: int) -> int
    decreases 100 - s,
{
    if s >= 100 || blocks_at_most(source, mask, s, 88) >= scored_blocks(mask, 88) / 2 {
        s
    } else {
        score_cutoff(source, mask, s + 1)
    }
}

/// Average quality of the scored blocks in percent.
pub open spec fn raw_quality_spec(source: Seq<u8>, mask: Seq<u8>) -> int {
    let blocks = scored_blocks(mask, 88);
    if blocks == 0 {
        0
    } else {
        (quality_total(source, mask, 88) + blocks / 2) / blocks * 100 / 65536
    }
}

/// Block `b` is among the worse half.
pub open spec fn block_selected(source: Seq<u8>, mask: Seq<u8>, b: int) -> bool {
    block_scored(mask, b) && block_score(source, mask, b) <= score_cutoff(source, mask, 0)
}

/// Pixel `i` lies in the 18x18 square of block `b`.
pub open spec fn block_covers(b: int, i: int) -> bool {
    let x = i % GF3258_WIDTH as int;
    let y = i / GF3258_WIDTH as int;
    6 * (b % 11) <= x < 6 * (b % 11) + 18 && 6 * (b / 11) <= y < 6 * (b / 11) + 18
}

/// Some selected block among the first `n` covers pixel `i`.
pub open spec fn selected_cover(source: Seq<u8>, mask: Seq<u8>, n: int, i: int) -> bool {
    exists|b: int| 0 <= b < n && #[trigger] block_selected(source, mask, b) && block_covers(b, i)
}

/// The mask of the worse half of the blocks. A mask byte that already carries
/// the mark keeps it.
pub open spec fn worse_half_mask(source: Seq<u8>, mask: Seq<u8>) -> Seq<u8> {
    Seq::new(
        GF3258_PIXELS as nat,
        |i: int|
            if mask[i] == 0x20 || selected_cover(source, mask, 88, i) {
                0xffu8
            } else {
                0u8
            },
    )
}

proof fn lemma_tensor_bounds(source: Seq<u8>, mask: Seq<u8>, b: int, n: nat)
    requires
        source.len() == GF3258_PIXELS,
        mask.len() == GF3258_PIXELS,
        0 <= b < 88,
        n <= 361,
    ensures
        ({
            let t = window_tensor(source, mask, b, n);
            &&& 0 <= t.count <= n
            &&& 0 <= t.xx <= 65025 * t.count
            &&& 0 <= t.yy <= 65025 * t.count
            &&& -65025 * t.count <= t.xy <= 65025 * t.count
        }),
    decreases n,
{
    if n > 0 {
        lemma_tensor_bounds(source, mask, b, (n - 1) as nat);
        let i = window_pixel(b, n - 1);
        let dx = plane_dx(source, mask, i);
        let dy = plane_dy(source, mask, i);
        arith::lemma_mul_bound(dx, dx, 255, 255);
        arith::lemma_mul_bound(dy, dy, 255, 255);
        arith::lemma_mul_bound(dy, dx, 255, 255);
        assert(dx * dx >= 0 && dy * dy >= 0) by (nonlinear_arith);
    }
}

/// Coherence of the tensor sums of a window.
fn tensor_quality_q16(count: i32, sum_xx: i32, sum_yy: i32, sum_xy: i32) -> (q16: i32)
    requires
        0 <= count <= 361,
        0 <= sum_xx <= 65025 * count,
        0 <= sum_yy <= 65025 * count,
        -65025 * count <= sum_xy <= 65025 * count,
    ensures
        q16 == tensor_quality(
            TensorSums {
                count: count as int,
                xx: sum_xx as int,
                yy: sum_yy as int,
                xy: sum_xy as int,
            },
        ),
        0 <= q16 <= 65536,
{
    if count < GF3258_QUALITY_MIN_TENSOR_PIXELS {
        return 0;
    }
    let half: i32 = count / 2;
    let a: i64 = ((sum_xx + half) / count) as i64;
    let b: i64 = ((sum_yy + half) / count) as i64;
    let c: i64 = ((sum_xy + half) / count) as i64;
    proof {
        assert(0 <= a <= 65026) by (nonlinear_arith)
            requires
                a == (sum_xx + count / 2) / count as int,
                0 <= sum_xx <= 65025 * count,
                count >= 60,
        ;
        assert(0 <= b <= 65026) by (nonlinear_arith)
            requires
                b == (sum_yy + count / 2) / count as int,
                0 <= sum_yy <= 65025 * count,
                count >= 60,
        ;
        assert(-65026 <= c <= 65026) by {
            if sum_xy + half >= 0 {
                assert(c <= 65026 && c >= 0) by (nonlinear_arith)
                    requires
                        c == (sum_xy + count / 2) / count as int,
                        0 <= sum_xy + count / 2,
                        sum_xy <= 65025 * count,
                        count >= 60,
                ;
            } else {
                assert(c <= 0 && c >= -65026) by (nonlinear_arith)
                    requires
                        c == -((-(sum_xy + count / 2)) / count as int),
                        sum_xy + count / 2 < 0,
                        -65025 * count <= sum_xy,
                        count >= 60,
                ;
            }
        }
    }
    let mean: i64 = (a + b) / 2;
    proof {
        arith::lemma_mul_bound(a as int, b as int, 65026, 65026);
        arith::lemma_mul_bound(c as int, c as int, 65026, 65026);
        arith::lemma_mul_bound(mean as int, mean as int, 65026, 65026);
        assert(mean * mean >= 0) by (nonlinear_arith);
    }
    let determinant: i64 = a * b - c * c;
    proof {
        arith::lemma_trunc_div_bound(determinant * 65536, mean * mean + 1);
    }
    let ratio: i32 = ((determinant * 65_536) / (mean * mean + 1)) as i32;
    let spread: i32 = if ratio < 0 {
        0
    } else {
        ratio
    };
    if spread > 65_536 {
        0
    } else {
        65_536 - spread
    }
}

/// Whether block `b` is scored, and its quality.
fn measure_block(mask: &Vec<u8>, dx_plane: &Vec<i32>, dy_plane: &Vec<i32>, b: usize, source: Ghost<Seq<u8>>) -> (r: Option<i32>)
    requires
        source@.len() == GF3258_PIXELS,
        mask@.len() == GF3258_PIXELS,
        dx_plane@.len() == GF3258_PIXELS,
        dy_plane@.len() == GF3258_PIXELS,
        forall|i: int|
            0 <= i < GF3258_PIXELS ==> #[trigger] dx_plane@[i] == plane_dx(source@, mask@, i) && -255
                <= dx_plane@[i] <= 255,
        forall|i: int|
            0 <= i < GF3258_PIXELS ==> #[trigger] dy_plane@[i] == plane_dy(source@, mask@, i) && -255
                <= dy_plane@[i] <= 255,
        b < 88,
    ensures
        r is Some == block_scored(mask@, b as int),
        r is Some ==> r->Some_0 == block_quality(source@, mask@, b as int) && 0 <= r->Some_0
            <= 65536,
{
    let center: usize = (9 + 6 * (b / 11)) * GF3258_WIDTH + 9 + 6 * (b % 11);
    if mask[center] == 0 {
        return None;
    }
    let mut mask_count: i32 = 0;
    for k in 0..361usize
        invariant
            mask@.len() == GF3258_PIXELS,
            b < 88,
            mask_count == window_mask_count(mask@, b as int, k as nat),
            0 <= mask_count <= k,
    {
        let i: usize = (6 * (b / 11) + k / 19) * GF3258_WIDTH + 6 * (b % 11) + k % 19;
        if mask[i] != 0 {
            mask_count = mask_count + 1;
        }
    }
    if mask_count < GF3258_QUALITY_MIN_MASK_PIXELS {
        return None;
    }
    let mut count: i32 = 0;
    let mut sum_xx: i32 = 0;
    let mut sum_yy: i32 = 0;
    let mut sum_xy: i32 = 0;
    for k in 0..361usize
        invariant
            source@.len() == GF3258_PIXELS,
            mask@.len() == GF3258_PIXELS,
            dx_plane@.len() == GF3258_PIXELS,
            dy_plane@.len() == GF3258_PIXELS,
            forall|i: int|
                0 <= i < GF3258_PIXELS ==> #[trigger] dx_plane@[i] == plane_dx(source@, mask@, i)
                    && -255 <= dx_plane@[i] <= 255,
            forall|i: int|
                0 <= i < GF3258_PIXELS ==> #[trigger] dy_plane@[i] == plane_dy(source@, mask@, i)
                    && -255 <= dy_plane@[i] <= 255,
            b < 88,
            (TensorSums {
                count: count as int,
                xx: sum_xx as int,
                yy: sum_yy as int,
                xy: sum_xy as int,
            }) == window_tensor(source@, mask@, b as int, k as nat),
    {
        let i: usize = (6 * (b / 11) + k / 19) * GF3258_WIDTH + 6 * (b % 11) + k % 19;
        let dx: i32 = dx_plane[i];
        let dy: i32 = dy_plane[i];
        proof {
            lemma_tensor_bounds(source@, mask@, b as int, k as nat);
            arith::lemma_mul_bound(dx as int, dx as int, 255, 255);
            arith::lemma_mul_bound(dy as int, dy as int, 255, 255);
            arith::lemma_mul_bound(dy as int, dx as int, 255, 255);
            assert(i == window_pixel(b as int, k as int));
        }
        if dx * dx + dy * dy >= GF3258_QUALITY_STRENGTH_THRESHOLD {
            count = count + 1;
            sum_xx = sum_xx + dx * dx;
            sum_yy = sum_yy + dy * dy;
            sum_xy = sum_xy + dy * dx;
        }
    }
    proof {
        lemma_tensor_bounds(source@, mask@, b as int, 361);
    }
    Some(tensor_quality_q16(count, sum_xx, sum_yy, sum_xy))
}

/// Number of scores among the first `n` that are at most `s`; unscored blocks
/// carry the score `-1`.
spec fn scores_at_most(scores: Seq<i32>, s: int, n: nat) -> int
    decreases n,
{
    if n == 0 {
        0
    } else {
        scores_at_most(scores, s, (n - 1) as nat) + if 0 <= scores[n - 1] <= s {
            1int
        } else {
            0int
        }
    }
}

proof fn lemma_scores_match(source: Seq<u8>, mask: Seq<u8>, scores: Seq<i32>, s: int, n: nat)
    requires
        n <= 88,
        scores.len() == 88,
        forall|b: int|
            0 <= b < 88 ==> #[trigger] scores[b] == (if block_scored(mask, b) {
                block_score(source, mask, b)
            } else {
                -1
            }),
        forall|b: int| 0 <= b < 88 && block_scored(mask, b) ==> 0 <= #[trigger] block_score(
            source,
            mask,
            b,
        ),
    ensures
        scores_at_most(scores, s, n) == blocks_at_most(source, mask, s, n),
    decreases n,
{
    if n > 0 {
        lemma_scores_match(source, mask, scores, s, (n - 1) as nat);
        assert(scores[n - 1] == (if block_scored(mask, n - 1) {
            block_score(source, mask, n - 1)
        } else {
            -1
        }));
        if block_scored(mask, n - 1) {
            assert(0 <= block_score(source, mask, n - 1));
        }
    }
}

fn count_scores_at_most(scores: &Vec<i32>, s: i32) -> (r: i32)
    requires
        scores@.len() == 88,
    ensures
        r == scores_at_most(scores@, s as int, 88),
        0 <= r <= 88,
{
    let mut r: i32 = 0;
    for b in 0..88usize
        invariant
            scores@.len() == 88,
            r == scores_at_most(scores@, s as int, b as nat),
            0 <= r <= b,
    {
        if 0 <= scores[b] && scores[b] <= s {
            r = r + 1;
        }
    }
    r
}

/// Average block quality, and the mask of the worse half of the blocks.
fn gf3258_raw_quality(source_u8: &[u8], mask: &Vec<u8>) -> (r: (i32, Vec<u8>))
    requires
        source_u8@.len() == GF3258_PIXELS,
        mask@.len() == GF3258_PIXELS,
    ensures
        r.0 == raw_quality_spec(source_u8@, mask@),
        0 <= r.0 <= 100,
        r.1@ == worse_half_mask(source_u8@, mask@),
{
    let ghost source = source_u8@;
    let ghost m = mask@;
    let (dx_plane, dy_plane): (Vec<i32>, Vec<i32>) = gf3258_quality_planes(source_u8, mask);
    let mut scores: Vec<i32> = Vec::with_capacity(88);
    let mut sum_quality_q16: i32 = 0;
    let mut valid_blocks: i32 = 0;
    for b in 0..88usize
        invariant
            source == source_u8@,
            m == mask@,
            source.len() == GF3258_PIXELS,
            m.len() == GF3258_PIXELS,
            dx_plane@.len() == GF3258_PIXELS,
            dy_plane@.len() == GF3258_PIXELS,
            forall|i: int|
                0 <= i < GF3258_PIXELS ==> #[trigger] dx_plane@[i] == plane_dx(source, m, i) && -255
                    <= dx_plane@[i] <= 255,
            forall|i: int|
                0 <= i < GF3258_PIXELS ==> #[trigger] dy_plane@[i] == plane_dy(source, m, i) && -255
                    <= dy_plane@[i] <= 255,
            scores@.len() == b,
            forall|j: int|
                0 <= j < b ==> #[trigger] scores@[j] == (if block_scored(m, j) {
                    block_score(source, m, j)
                } else {
                    -1
                }),
            forall|j: int|
                0 <= j < b && block_scored(m, j) ==> 0 <= #[trigger] block_score(source, m, j)
                    <= 100,
            valid_blocks == scored_blocks(m, b as nat),
            sum_quality_q16 == quality_total(source, m, b as nat),
            0 <= valid_blocks <= b,
            0 <= sum_quality_q16 <= 65536 * valid_blocks,
    {
        match measure_block(mask, &dx_plane, &dy_plane, b, Ghost(source)) {
            Some(q16) => {
                sum_quality_q16 = sum_quality_q16 + q16;
                valid_blocks = valid_blocks + 1;
                scores.push(q16 * 100 / 65536);
            },
            None => {
                scores.push(-1);
            },
        }
    }
    let raw_quality: i32 = if valid_blocks == 0 {
        0
    } else {
        let average_q16: i32 = (sum_quality_q16 + valid_blocks / 2) / valid_blocks;
        proof {
            assert(0 <= average_q16 <= 65536) by (nonlinear_arith)
                requires
                    average_q16 == (sum_quality_q16 + valid_blocks / 2) / valid_blocks as int,
                    0 <= sum_quality_q16 <= 65536 * valid_blocks,
                    valid_blocks > 0,
            ;
        }
        average_q16 * 100 / 65536
    };
    let target: i32 = valid_blocks / 2;
    let mut cutoff: i32 = 0;
    proof {
        lemma_scores_match(source, m, scores@, 0, 88);
    }
    while cutoff < 100 && count_scores_at_most(&scores, cutoff) < target
        invariant
            source.len() == GF3258_PIXELS,
            m.len() == GF3258_PIXELS,
            scores@.len() == 88,
            forall|j: int|
                0 <= j < 88 ==> #[trigger] scores@[j] == (if block_scored(m, j) {
                    block_score(source, m, j)
                } else {
                    -1
                }),
            forall|j: int|
                0 <= j < 88 && block_scored(m, j) ==> 0 <= #[trigger] block_score(source, m, j)
                    <= 100,
            0 <= cutoff <= 100,
            target == scored_blocks(m, 88) / 2,
            score_cutoff(source, m, 0) == score_cutoff(source, m, cutoff as int),
            scores_at_most(scores@, cutoff as int, 88) == blocks_at_most(source, m, cutoff as int, 88),
        decreases 100 - cutoff,
    {
        cutoff = cutoff + 1;
        proof {
            lemma_scores_match(source, m, scores@, cutoff as int, 88);
        }
    }
    let mut out: Vec<u8> = Vec::with_capacity(GF3258_PIXELS);
    for i in 0..GF3258_PIXELS
        invariant
            source == source_u8@,
            m == mask@,
            m.len() == GF3258_PIXELS,
            scores@.len() == 88,
            forall|j: int|
                0 <= j < 88 ==> #[trigger] scores@[j] == (if block_scored(m, j) {
                    block_score(source, m, j)
                } else {
                    -1
                }),
            forall|j: int|
                0 <= j < 88 && block_scored(m, j) ==> 0 <= #[trigger] block_score(source, m, j)
                    <= 100,
            cutoff == score_cutoff(source, m, 0),
            out@.len() == i,
            forall|j: int| 0 <= j < i ==> out@[j] == worse_half_mask(source, m)[j],
    {
        let x: usize = i % GF3258_WIDTH;
        let y: usize = i / GF3258_WIDTH;
        let mut covered: bool = false;
        for b in 0..88usize
            invariant
                x == i % GF3258_WIDTH,
                y == i / GF3258_WIDTH,
                scores@.len() == 88,
                forall|j: int|
                    0 <= j < 88 ==> #[trigger] scores@[j] == (if block_scored(m, j) {
                        block_score(source, m, j)
                    } else {
                        -1
                    }),
                forall|j: int|
                    0 <= j < 88 && block_scored(m, j) ==> 0 <= #[trigger] block_score(source, m, j)
                        <= 100,
                cutoff == score_cutoff(source, m, 0),
                covered == selected_cover(source, m, b as int, i as int),
        {
            let left: usize = 6 * (b % 11);
            let top: usize = 6 * (b / 11);
            proof {
                assert(scores@[b as int] == (if block_scored(m, b as int) {
                    block_score(source, m, b as int)
                } else {
                    -1
                }));
                if block_scored(m, b as int) {
                    assert(0 <= block_score(source, m, b as int));
                }
            }
            let selected: bool = 0 <= scores[b] && scores[b] <= cutoff;
            assert(selected == block_selected(source, m, b as int));
            let covers: bool = left <= x && x < left + 18 && top <= y && y < top + 18;
            let ghost before = covered;
            if selected && covers {
                covered = true;
            }
            proof {
                if before {
                    let w = choose|w: int|
                        0 <= w < b && #[trigger] block_selected(source, m, w) && block_covers(
                            w,
                            i as int,
                        );
                    assert(block_selected(source, m, w));
                }
                if selected_cover(source, m, b + 1, i as int) && !before {
                    let w = choose|w: int|
                        0 <= w < b + 1 && #[trigger] block_selected(source, m, w) && block_covers(
                            w,
                            i as int,
                        );
                    assert(w == b);
                }
            }
        }
        if covered || mask[i] == 0x20 {
            out.push(0xff);
        } else {
            out.push(0);
        }
    }
    proof {
        assert(out@ =~= worse_half_mask(source, m));
    }
    (raw_quality, out)
}

/// Offsets of the eight neighbours, clockwise from the upper left.
pub const NEIGHBOR_OFFSETS: [isize; 8] = [-81, -80, -79, 1, 81, 80, 79, -1];

/// Neighbour `k` of pixel `i` is brighter by more than four.
pub open spec fn neighbor_bit(source: Seq<u8>, i: int, k: int) -> int {
    if source[i + NEIGHBOR_OFFSETS@[k]] - source[i] > 4 {
        1
    } else {
        0
    }
}

/// Number of bright neighbours among the first `n`.
pub open spec fn bright_neighbors(source: Seq<u8>, i: int, n: nat) -> int
    decreases n,
{
    if n == 0 {
        0
    } else {
        bright_neighbors(source, i, (n - 1) as nat) + neighbor_bit(source, i, n - 1)
    }
}

/// Number of changes around the circle of neighbours, counted up to `n`.
pub open spec fn neighbor_changes(source: Seq<u8>, i: int, n: nat) -> int
    decreases n,
{
    if n == 0 {
        0
    } else {
        let k = n - 1;
        let previous = if k == 0 {
            7
        } else {
            k - 1
        };
        neighbor_changes(source, i, (n - 1) as nat) + arith::abs(
            neighbor_bit(source, i, k) - neighbor_bit(source, i, previous),
        )
    }
}

/// Number of contiguous bright neighbours; nine where there is no such run.
pub open spec fn pixel_label(source: Seq<u8>, i: int) -> int {
    let x = i % GF3258_WIDTH as int;
    let y = i / GF3258_WIDTH as int;
    if 1 <= x < GF3258_WIDTH - 1 && 1 <= y < GF3258_HEIGHT - 1 && neighbor_changes(source, i, 8) < 3 {
        bright_neighbors(source, i, 8)
    } else {
        9
    }
}

/// Number of masked pixels among the first `n` with a label in `low..=high`.
pub open spec fn labelled(source: Seq<u8>, mask: Seq<u8>, low: int, high: int, n: nat) -> int
    decreases n,
{
    if n == 0 {
        0
    } else {
        labelled(source, mask, low, high, (n - 1) as nat) + if mask[n - 1] != 0 && low
            <= pixel_label(source, n - 1) <= high {
            1int
        } else {
            0int
        }
    }
}

/// Share of the masked pixels with four contiguous bright neighbours, in percent.
pub open spec fn class4_percent_spec(source: Seq<u8>, mask: Seq<u8>) -> int {
    let total = labelled(source, mask, 0, 8, GF3258_PIXELS as nat);
    if total == 0 {
        0
    } else {
        labelled(source, mask, 4, 4, GF3258_PIXELS as nat) * 100 / total
    }
}

fn label_of(source: &[u8], i: usize) -> (label: i32)
    requires
        source@.len() == GF3258_PIXELS,
        i < GF3258_PIXELS,
    ensures
        label == pixel_label(source@, i as int),
        0 <= label <= 9,
{
    let x: usize = i % GF3258_WIDTH;
    let y: usize = i / GF3258_WIDTH;
    if x < 1 || x >= GF3258_WIDTH - 1 || y < 1 || y >= GF3258_HEIGHT - 1 {
        return 9;
    }
    let center: i32 = source[i] as i32;
    let mut bits: [i32; 8] = [0i32;8];
    for k in 0..8usize
        invariant
            source@.len() == GF3258_PIXELS,
            i < GF3258_PIXELS,
            1 <= i % GF3258_WIDTH < GF3258_WIDTH - 1,
            1 <= i / GF3258_WIDTH < GF3258_HEIGHT - 1,
            center == source@[i as int],
            forall|j: int| 0 <= j < k ==> #[trigger] bits@[j] == neighbor_bit(source@, i as int, j),
    {
        let offset: isize = NEIGHBOR_OFFSETS[k];
        assert(-81 <= offset <= 81);
        let neighbor: i32 = source[(i as isize + offset) as usize] as i32;
        if neighbor - center > 4 {
            bits[k] = 1;
        } else {
            bits[k] = 0;
        }
    }
    let mut changes: i32 = 0;
    let mut label: i32 = 0;
    for k in 0..8usize
        invariant
            forall|j: int| 0 <= j < 8 ==> #[trigger] bits@[j] == neighbor_bit(source@, i as int, j),
            changes == neighbor_changes(source@, i as int, k as nat),
            label == bright_neighbors(source@, i as int, k as nat),
            0 <= changes <= k,
            0 <= label <= k,
    {
        let previous: usize = if k == 0 {
            7
        } else {
            k - 1
        };
        assert(bits@[previous as int] == neighbor_bit(source@, i as int, previous as int));
        assert(bits@[k as int] == neighbor_bit(source@, i as int, k as int));
        let change: i32 = bits[k] - bits[previous];
        if change < 0 {
            changes = changes - change;
        } else {
            changes = changes + change;
        }
        label = label + bits[k];
    }
    if changes < 3 {
        label
    } else {
        9
    }
}

pub fn gf3258_class4_percent(source_u8: &[u8], mask: &[u8]) -> (percent: i32)
    requires
        source_u8@.len() == GF3258_PIXELS,
        mask@.len() == GF3258_PIXELS,
    ensures
        percent == class4_percent_spec(source_u8@, mask@),
        0 <= percent <= 100,
{
    let mut total: i32 = 0;
    let mut four: i32 = 0;
    for i in 0..GF3258_PIXELS
        invariant
            source_u8@.len() == GF3258_PIXELS,
            mask@.len() == GF3258_PIXELS,
            total == labelled(source_u8@, mask@, 0, 8, i as nat),
            four == labelled(source_u8@, mask@, 4, 4, i as nat),
            0 <= four <= total <= i,
    {
        if mask[i] != 0 {
            let label: i32 = label_of(source_u8, i);
            if label <= 8 {
                total = total + 1;
            }
            if label == 4 {
                four = four + 1;
            }
        }
    }
    if total == 0 {
        0
    } else {
        let percent: i32 = four * 100 / total;
        assert(0 <= percent <= 100) by (nonlinear_arith)
            requires
                percent == four * 100 / total as int,
                0 <= four <= total,
                total > 0,
        ;
        percent
    }
}

/// Quality after the classifier: below the reference share it is scaled twice.
pub open spec fn classified_quality(raw: int, percent: int) -> int {
    if percent < GF3258_CLASS4_REFERENCE_PERCENT {
        let scale = percent * 256 / GF3258_CLASS4_REFERENCE_PERCENT as int;
        (raw * scale / 256) * scale / 256
    } else {
        raw
    }
}

/// Quality after the loss of coverage: it is scaled twice by the kept share.
pub open spec fn coverage_scaled(quality: int, mask_coverage: int, coverage: int) -> int {
    if mask_coverage - coverage > GF3258_MASK_COVERAGE_LOSS_Q16 {
        (quality * coverage / mask_coverage) * coverage / mask_coverage
    } else {
        quality
    }
}

/// Final quality: a positive one gains seven points, coverage below one half
/// scales it by its square, and coverage below six percent voids it.
pub open spec fn final_quality(quality: int, coverage: int) -> int {
    let raised = if quality > 0 {
        quality + 7
    } else {
        quality
    };
    let scaled = if coverage < 50 {
        coverage * raised * coverage / 2500
    } else {
        raised
    };
    if coverage < 6 {
        0
    } else if scaled > 100 {
        100
    } else {
        scaled
    }
}

/// The quality of a capture.
pub open spec fn capture_quality_spec(source: Seq<u8>) -> Gf3258CaptureQuality {
    let mask = quality_mask_spec(source);
    let mask_coverage = validity::count_nonzero(mask, GF3258_PIXELS as nat) as int * 65536
        / GF3258_PIXELS as int;
    let raw = raw_quality_spec(source, mask);
    let percent = class4_percent_spec(source, worse_half_mask(source, mask));
    let classified = raw < GF3258_RAW_QUALITY_CLASSIFIER_THRESHOLD;
    let quality = if classified {
        classified_quality(raw, percent)
    } else {
        raw
    };
    let coverage_q16 = validity::coverage_q16_spec(source, GF3258_CAPTURE_COVERAGE_THRESHOLD);
    let coverage = coverage_q16 * 100 / 65536;
    Gf3258CaptureQuality {
        raw_quality: raw as i32,
        quality: final_quality(coverage_scaled(quality, mask_coverage, coverage_q16), coverage) as i32,
        coverage: coverage as i32,
        mask_coverage_q16: mask_coverage as i32,
        coverage_q16: coverage_q16 as i32,
        class4_percent: if classified {
            Some(percent as i32)
        } else {
            None
        },
    }
}

/// Measures the quality of an 80x64 capture.
pub fn gf3258_capture_quality(source_u8: &[u8]) -> (result: Result<
    Gf3258CaptureQuality,
    FeatureError,
>)
    ensures
        source_u8@.len() != GF3258_PIXELS ==> result == Err::<Gf3258CaptureQuality, FeatureError>(
            FeatureError::UnexpectedPixelCount {
                expected: GF3258_PIXELS,
                actual: source_u8@.len() as usize,
            },
        ),
        source_u8@.len() == GF3258_PIXELS ==> {
            &&& result == Ok::<Gf3258CaptureQuality, FeatureError>(
                capture_quality_spec(source_u8@),
            )
            &&& 0 <= result->Ok_0.raw_quality <= 100
            &&& 0 <= result->Ok_0.quality <= 100
            &&& 0 <= result->Ok_0.coverage <= 100
        },
{
    if source_u8.len() != GF3258_PIXELS {
        return Err(
            FeatureError::UnexpectedPixelCount { expected: GF3258_PIXELS, actual: source_u8.len() },
        );
    }
    let mask: Vec<u8> = gf3258_quality_mask(source_u8);
    let mut mask_nonzero: i32 = 0;
    for i in 0..GF3258_PIXELS
        invariant
            mask@.len() == GF3258_PIXELS,
            mask_nonzero == validity::count_nonzero(mask@, i as nat),
            0 <= mask_nonzero <= i,
    {
        if mask[i] != 0 {
            mask_nonzero = mask_nonzero + 1;
        }
    }
    let mask_coverage_q16: i32 = (mask_nonzero * 65_536) / GF3258_PIXELS as i32;
    let (raw_quality, worse): (i32, Vec<u8>) = gf3258_raw_quality(source_u8, &mask);
    let mut quality: i32 = raw_quality;
    let mut class4_percent: Option<i32> = None;
    if raw_quality < GF3258_RAW_QUALITY_CLASSIFIER_THRESHOLD {
        let percent: i32 = gf3258_class4_percent(source_u8, worse.as_slice());
        class4_percent = Some(percent);
        if percent < GF3258_CLASS4_REFERENCE_PERCENT {
            let scale_q8: i32 = percent * 256 / GF3258_CLASS4_REFERENCE_PERCENT;
            proof {
                lemma_scaled(quality as int, scale_q8 as int, 256);
            }
            let once: i32 = quality * scale_q8 / 256;
            proof {
                lemma_scaled(once as int, scale_q8 as int, 256);
            }
            quality = once * scale_q8 / 256;
        }
    }
    let coverage_q16: i32 = match validity::gf3258_bd720_coverage_q16_with_threshold(
        source_u8,
        GF3258_CAPTURE_COVERAGE_THRESHOLD,
    ) {
        Ok(coverage) => coverage,
        Err(error) => {
            return Err(error);
        },
    };
    if mask_coverage_q16 - coverage_q16 > GF3258_MASK_COVERAGE_LOSS_Q16 {
        proof {
            lemma_scaled(quality as int, coverage_q16 as int, mask_coverage_q16 as int);
        }
        let once: i32 = quality * coverage_q16 / mask_coverage_q16;
        proof {
            lemma_scaled(once as int, coverage_q16 as int, mask_coverage_q16 as int);
        }
        quality = once * coverage_q16 / mask_coverage_q16;
    }
    let coverage: i32 = coverage_q16 * 100 / 65536;
    if quality > 0 {
        quality = quality + 7;
    }
    if coverage < 50 {
        proof {
            assert(0 <= coverage * quality <= 50 * 107) by (nonlinear_arith)
                requires
                    0 <= coverage < 50,
                    0 <= quality <= 107,
            ;
            let product = coverage * quality;
            assert(0 <= product * coverage <= 50 * 107 * 50) by (nonlinear_arith)
                requires
                    0 <= coverage < 50,
                    0 <= product <= 50 * 107,
            ;
        }
        quality = coverage * quality * coverage / 2500;
    }
    if quality > 100 {
        quality = 100;
    }
    if coverage < 6 {
        quality = 0;
    }
    Ok(
        Gf3258CaptureQuality {
            raw_quality,
            quality,
            coverage,
            mask_coverage_q16,
            coverage_q16,
            class4_percent,
        },
    )
}

/// Scaling a percentage by a share keeps it a percentage.
proof fn lemma_scaled(quality: int, part: int, whole: int)
    requires
        0 <= quality <= 100,
        0 <= part <= whole,
        0 < whole <= 65536,
    ensures
        0 <= quality * part <= 6553600,
        0 <= quality * part / whole <= 100,
{
    assert(0 <= quality * part <= 100 * whole) by (nonlinear_arith)
        requires
            0 <= quality <= 100,
            0 <= part <= whole,
    ;
    assert(0 <= quality * part / whole <= 100) by (nonlinear_arith)
        requires
            0 <= quality * part <= 100 * whole,
            0 < whole,
    ;
}

/// The coherence of tensor sums. Gradients along one axis, and gradients along the
/// diagonal, are fully coherent; along the other diagonal they are so up to the
/// rounding of the means. Gradients of equal strength in both directions that do
/// not go together have next to no coherence. And the two directions are alike.
pub proof fn lemma_coherence(t: TensorSums)
    requires
        60 <= t.count,
        0 <= t.xx,
        0 <= t.yy,
    ensures
        t.xy == 0 && (t.xx == 0 || t.yy == 0) ==> tensor_quality(t) == 65536,
        t.xx == t.yy && t.xy == t.xx ==> tensor_quality(t) == 65536,
        t.xx == t.yy && t.xy == -t.xx && t.xx >= 16 * t.count ==> tensor_quality(t) >= 57630,
        t.xx == t.yy && t.xy == 0 && t.xx >= 12 * t.count && t.xx <= 65025 * t.count
            ==> tensor_quality(t) <= 453,
        tensor_quality(t) == tensor_quality(
            TensorSums { count: t.count, xx: t.yy, yy: t.xx, xy: t.xy },
        ),
{
    let n = t.count;
    let half = n / 2;
    let a = (t.xx + half) / n;
    let b = (t.yy + half) / n;
    let c = arith::trunc_div(t.xy + half, n);
    assert(half / n == 0) by (nonlinear_arith)
        requires
            half == n / 2,
            n >= 60,
    ;
    assert(a * b == b * a) by (nonlinear_arith);
    if t.xy == 0 && (t.xx == 0 || t.yy == 0) {
        assert(c == 0);
        assert(a * b - c * c == 0) by (nonlinear_arith)
            requires
                a == 0 || b == 0,
                c == 0,
        ;
        lemma_nothing_over((a + b) / 2);
    }
    if t.xx == t.yy && t.xy == t.xx {
        assert(a == b && c == a);
        lemma_nothing_over((a + b) / 2);
    }
    if t.xx == t.yy && t.xy == -t.xx && t.xx >= 16 * t.count {
        lemma_antiparallel(t);
    }
    if t.xx == t.yy && t.xy == 0 && t.xx >= 12 * t.count && t.xx <= 65025 * t.count {
        lemma_isotropic(t);
    }
}

proof fn lemma_nothing_over(mean: int)
    ensures
        arith::trunc_div(0int, mean * mean + 1) == 0,
{
    let d = mean * mean + 1;
    assert(d > 0) by (nonlinear_arith)
        requires
            d == mean * mean + 1,
    ;
    assert(0int / d == 0) by (nonlinear_arith)
        requires
            d > 0,
    ;
}

proof fn lemma_antiparallel(t: TensorSums)
    requires
        60 <= t.count,
        t.xx >= 16 * t.count,
        t.yy == t.xx,
        t.xy == -t.xx,
    ensures
        tensor_quality(t) >= 57630,
{
    let n = t.count;
    let half = n / 2;
    let a = (t.xx + half) / n;
    let e = (t.xx - half) / n;
    let c = arith::trunc_div(t.xy + half, n);
    assert(c == -e) by {
        assert(t.xy + half < 0);
    }
    assert(a >= 16) by (nonlinear_arith)
        requires
            a == (t.xx + half) / n,
            t.xx >= 16 * n,
            half >= 0,
            n >= 60,
    ;
    assert(e <= a <= e + 1) by (nonlinear_arith)
        requires
            a == (t.xx + half) / n,
            e == (t.xx - half) / n,
            half == n / 2,
            n >= 60,
    ;
    let determinant = a * a - c * c;
    assert(0 <= determinant <= 2 * a - 1) by (nonlinear_arith)
        requires
            determinant == a * a - c * c,
            c == -e,
            e <= a <= e + 1,
            a >= 16,
    ;
    let d = a * a + 1;
    assert((a + a) / 2 == a);
    let ratio = (determinant * 65536) / d;
    assert(257 * (2 * a - 1) <= 31 * d) by (nonlinear_arith)
        requires
            d == a * a + 1,
            a >= 16,
    ;
    assert(0 <= ratio <= 7906) by (nonlinear_arith)
        requires
            ratio == (determinant * 65536) / d,
            0 <= determinant <= 2 * a - 1,
            257 * (2 * a - 1) <= 31 * d,
            d > 0,
            a >= 16,
    ;
}

proof fn lemma_isotropic(t: TensorSums)
    requires
        60 <= t.count,
        12 * t.count <= t.xx <= 65025 * t.count,
        t.yy == t.xx,
        t.xy == 0,
    ensures
        tensor_quality(t) <= 453,
{
    let n = t.count;
    let half = n / 2;
    let a = (t.xx + half) / n;
    assert(half / n == 0) by (nonlinear_arith)
        requires
            half == n / 2,
            n >= 60,
    ;
    assert(12 <= a <= 65026) by (nonlinear_arith)
        requires
            a == (t.xx + half) / n,
            12 * n <= t.xx <= 65025 * n,
            half == n / 2,
            n >= 60,
    ;
    let s = a * a;
    let d = s + 1;
    assert(s >= 144) by (nonlinear_arith)
        requires
            s == a * a,
            a >= 12,
    ;
    let ratio = (s * 65536) / d;
    assert((a + a) / 2 == a);
    assert(65083 <= ratio <= 65536) by (nonlinear_arith)
        requires
            ratio == (s * 65536) / d,
            d == s + 1,
            s >= 144,
    ;
}

/// What the gradient of every strong pixel is: `relation` of its two central
/// differences.
pub open spec fn strong_gradients_are(source: Seq<u8>, relation: spec_fn(int, int) -> bool) -> bool {
    forall|i: int|
        81 <= i < 5039 ==> {
            let dx = source[i + 1] - #[trigger] source[i - 1];
            let dy = source[i + 80] - source[i - 80];
            dx * dx + dy * dy >= 25 ==> relation(dx, dy)
        }
}

proof fn lemma_window_sums(
    source: Seq<u8>,
    mask: Seq<u8>,
    b: int,
    n: nat,
    relation: spec_fn(int, int) -> bool,
)
    requires
        source.len() == GF3258_PIXELS,
        mask.len() == GF3258_PIXELS,
        0 <= b < 88,
        n <= 361,
        strong_gradients_are(source, relation),
    ensures
        ({
            let t = window_tensor(source, mask, b, n);
            &&& (forall|dx: int, dy: int| #[trigger] relation(dx, dy) ==> dy == 0) ==> t.yy == 0
                && t.xy == 0
            &&& (forall|dx: int, dy: int| #[trigger] relation(dx, dy) ==> dx == 0) ==> t.xx == 0
                && t.xy == 0
            &&& (forall|dx: int, dy: int| #[trigger] relation(dx, dy) ==> dx == dy) ==> t.xx
                == t.yy && t.xy == t.xx
            &&& (forall|dx: int, dy: int| #[trigger] relation(dx, dy) ==> dx == -dy) ==> t.xx
                == t.yy && t.xy == -t.xx && t.xx >= 16 * t.count
        }),
    decreases n,
{
    if n > 0 {
        lemma_window_sums(source, mask, b, (n - 1) as nat, relation);
        let i = window_pixel(b, n - 1);
        let dx = plane_dx(source, mask, i);
        let dy = plane_dy(source, mask, i);
        if dx * dx + dy * dy >= 25 {
            assert(fully_masked(mask, i)) by {
                if !fully_masked(mask, i) {
                    assert(dx * dx + dy * dy == 0) by (nonlinear_arith)
                        requires
                            dx == 0,
                            dy == 0,
                    ;
                }
            }
            assert(source[i - 1] == source[i - 1]);
            assert(relation(dx, dy));
            if dy == 0 || dx == 0 {
                assert(dy * dx == 0 && (dy == 0 ==> dy * dy == 0) && (dx == 0 ==> dx * dx == 0))
                    by (nonlinear_arith)
                    requires
                        dy == 0 || dx == 0,
                ;
            }
            if dx == -dy {
                assert(dx * dx == dy * dy && dy * dx == -(dx * dx)) by (nonlinear_arith)
                    requires
                        dx == -dy,
                ;
                assert(dx * dx >= 16) by (nonlinear_arith)
                    requires
                        2 * (dx * dx) >= 25,
                ;
            }
        }
    }
}

proof fn lemma_uniform_blocks(source: Seq<u8>, mask: Seq<u8>, least: int, n: nat)
    requires
        n <= 88,
        forall|b: int|
            0 <= b < 88 && #[trigger] block_scored(mask, b) ==> least <= block_quality(
                source,
                mask,
                b,
            ) <= 65536,
    ensures
        least * scored_blocks(mask, n) <= quality_total(source, mask, n) <= 65536 * scored_blocks(
            mask,
            n,
        ),
        0 <= scored_blocks(mask, n) <= n,
    decreases n,
{
    if n > 0 {
        lemma_uniform_blocks(source, mask, least, (n - 1) as nat);
        assert(block_scored(mask, n - 1) ==> least <= block_quality(source, mask, n - 1));
        let k = scored_blocks(mask, (n - 1) as nat);
        assert(least * (k + 1) == least * k + least) by (nonlinear_arith);
    }
}

/// An average lies between the least and the greatest quality that it is taken
/// over: where every scored block has at least the quality `least`, the raw
/// quality is at least that in percent, and at most a hundred.
pub proof fn lemma_raw_quality_is_an_average(source: Seq<u8>, mask: Seq<u8>, least: int)
    requires
        0 <= least,
        forall|b: int|
            0 <= b < 88 && #[trigger] block_scored(mask, b) ==> least <= block_quality(
                source,
                mask,
                b,
            ) <= 65536,
        exists|b: int| 0 <= b < 88 && #[trigger] block_scored(mask, b),
    ensures
        least * 100 / 65536 <= raw_quality_spec(source, mask) <= 100,
{
    lemma_uniform_blocks(source, mask, least, 88);
    let blocks = scored_blocks(mask, 88);
    let b = choose|b: int| 0 <= b < 88 && #[trigger] block_scored(mask, b);
    lemma_some_block(mask, b, 88);
    let total = quality_total(source, mask, 88);
    let average = (total + blocks / 2) / blocks;
    assert(least <= average <= 65536) by (nonlinear_arith)
        requires
            average == (total + blocks / 2) / blocks,
            least * blocks <= total <= 65536 * blocks,
            blocks > 0,
    ;
}

proof fn lemma_some_block(mask: Seq<u8>, b: int, n: nat)
    requires
        0 <= b < n,
        block_scored(mask, b),
    ensures
        scored_blocks(mask, n) > 0,
    decreases n,
{
    if b < n - 1 {
        lemma_some_block(mask, b, (n - 1) as nat);
    } else {
        lemma_block_count(mask, (n - 1) as nat);
    }
}

proof fn lemma_block_count(mask: Seq<u8>, n: nat)
    ensures
        scored_blocks(mask, n) >= 0,
    decreases n,
{
    if n > 0 {
        lemma_block_count(mask, (n - 1) as nat);
    }
}

/// Clean ridges score alike in every direction: with enough strong pixels in every
/// scored block, parallel gradients along an axis or along the diagonal give the
/// full raw quality, and along the other diagonal all but the rounding of it, so
/// that such a capture is accepted.
pub proof fn lemma_ridges_score_in_every_direction(
    source: Seq<u8>,
    mask: Seq<u8>,
    relation: spec_fn(int, int) -> bool,
)
    requires
        source.len() == 5120,
        mask.len() == 5120,
        strong_gradients_are(source, relation),
        exists|b: int| 0 <= b < 88 && #[trigger] block_scored(mask, b),
        forall|b: int|
            0 <= b < 88 && #[trigger] block_scored(mask, b) ==> window_tensor(
                source,
                mask,
                b,
                361,
            ).count >= 60,
    ensures
        (forall|dx: int, dy: int| #[trigger] relation(dx, dy) ==> dy == 0) ==> raw_quality_spec(
            source,
            mask,
        ) == 100,
        (forall|dx: int, dy: int| #[trigger] relation(dx, dy) ==> dx == 0) ==> raw_quality_spec(
            source,
            mask,
        ) == 100,
        (forall|dx: int, dy: int| #[trigger] relation(dx, dy) ==> dx == dy) ==> raw_quality_spec(
            source,
            mask,
        ) == 100,
        (forall|dx: int, dy: int| #[trigger] relation(dx, dy) ==> dx == -dy) ==> raw_quality_spec(
            source,
            mask,
        ) >= 87,
{
    let straight = (forall|dx: int, dy: int| #[trigger] relation(dx, dy) ==> dy == 0) || (forall|
        dx: int,
        dy: int,
    | #[trigger]
        relation(dx, dy) ==> dx == 0) || (forall|dx: int, dy: int| #[trigger]
        relation(dx, dy) ==> dx == dy);
    let turned = forall|dx: int, dy: int| #[trigger] relation(dx, dy) ==> dx == -dy;
    let least = if straight {
        65536int
    } else {
        57630int
    };
    if straight || turned {
        assert forall|b: int| 0 <= b < 88 && #[trigger] block_scored(mask, b) implies least
            <= block_quality(source, mask, b) <= 65536 by {
            let t = window_tensor(source, mask, b, 361);
            lemma_tensor_bounds(source, mask, b, 361);
            lemma_window_sums(source, mask, b, 361, relation);
            lemma_coherence(t);
        }
        lemma_raw_quality_is_an_average(source, mask, least);
    }
}

/// The blocks that are marked are the worse half: the cutoff is the least score
/// that half of the scored blocks reach, so that fewer lie below it, and marked
/// blocks never score above unmarked ones.
pub proof fn lemma_cutoff_marks_the_worse_half(source: Seq<u8>, mask: Seq<u8>, s: int)
    requires
        0 <= s <= 100,
        forall|r: int|
            0 <= r < s ==> #[trigger] blocks_at_most(source, mask, r, 88) < scored_blocks(mask, 88)
                / 2,
    ensures
        ({
            let cutoff = score_cutoff(source, mask, s);
            &&& s <= cutoff <= 100
            &&& cutoff < 100 ==> blocks_at_most(source, mask, cutoff, 88) >= scored_blocks(
                mask,
                88,
            ) / 2
            &&& forall|r: int|
                0 <= r < cutoff ==> #[trigger] blocks_at_most(source, mask, r, 88) < scored_blocks(
                    mask,
                    88,
                ) / 2
        }),
    decreases 100 - s,
{
    if s < 100 && blocks_at_most(source, mask, s, 88) < scored_blocks(mask, 88) / 2 {
        lemma_cutoff_marks_the_worse_half(source, mask, s + 1);
    }
}

} // verus!
