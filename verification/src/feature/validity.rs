//! Enrollment-validity generation for GF3258: the 80x64 validity mask made from
//! smoothed gradient strength, and its reduction to a 20x16 grid.
use vstd::prelude::*;

use crate::arith;
use crate::feature::detector;
use crate::feature::filter;
use crate::feature::{FeatureError, GF3258_HEIGHT, GF3258_PIXELS, GF3258_WIDTH};

verus! {

pub const GF3258_BD720_MODE7_KERNEL: [i32; 5] = [3_571, 16_004, 26_386, 16_004, 3_571];

pub const GF3258_BD720_BOX_RADIUS: usize = 7;

/// `floor(65536 / (15 * 15))`.
pub const GF3258_BD720_BOX_RECIP_Q16: i32 = 291;

pub const GF3258_BD720_THRESHOLD: u16 = 0x6e;

pub const GF3258_BD720_REVISION: &'static str = "gf3258-bd720-v1";

pub const GF3258_A8200_BLOCK: usize = 4;

pub const GF3258_A8200_WIDTH: usize = 20;

pub const GF3258_A8200_HEIGHT: usize = 16;

pub const GF3258_A8200_CELLS: usize = 320;

pub const GF3258_A8200_REVISION: &'static str = "gf3258-a8200-logical-v1";

/// Validity of the pixels of an 80x64 image.
#[derive(Debug, Clone, PartialEq, Eq)]
pub struct Gf3258Bd720Validity {
    /// One byte per pixel, zero or one.
    pub mask_u8: Vec<u8>,
    pub selected_pixels: usize,
    /// Selected share of the image in Q16.
    pub coverage_q16: u32,
}

/// Validity of an image and of its 4x4 blocks.
#[derive(Debug, Clone, PartialEq, Eq)]
pub struct Gf3258EnrollmentValidity {
    pub bd720: Gf3258Bd720Validity,
    pub quarter_validity: [u8; 320],
    pub quarter_selected_cells: usize,
}

/// The prefiltered image, reduced to its high bytes.
pub open spec fn prefiltered(source: Seq<u8>) -> Seq<u8> {
    let wide = filter::separable_q16_spec(
        detector::widened_image(source),
        GF3258_BD720_MODE7_KERNEL@,
    );
    Seq::new(GF3258_PIXELS as nat, |i: int| (wide[i] / 256) as u8)
}

/// Centered horizontal difference at `(x, y)`.
pub open spec fn step_x(f: Seq<u8>, x: int, y: int) -> int {
    f[y * GF3258_WIDTH + x + 1] - f[y * GF3258_WIDTH + x - 1]
}

/// Centered vertical difference at `(x, y)`.
pub open spec fn step_y(f: Seq<u8>, x: int, y: int) -> int {
    f[(y + 1) * GF3258_WIDTH + x] - f[(y - 1) * GF3258_WIDTH + x]
}

/// Horizontal Sobel derivative; rows reflect, the outer columns are zero.
pub open spec fn reflected_sobel_x(f: Seq<u8>, x: int, y: int) -> int {
    if x == 0 || x == GF3258_WIDTH - 1 {
        0
    } else {
        step_x(f, x, filter::reflect101_spec(y - 1, GF3258_HEIGHT as int)) + 2 * step_x(f, x, y)
            + step_x(f, x, filter::reflect101_spec(y + 1, GF3258_HEIGHT as int))
    }
}

/// Vertical Sobel derivative; columns reflect, the outer rows are zero.
pub open spec fn reflected_sobel_y(f: Seq<u8>, x: int, y: int) -> int {
    if y == 0 || y == GF3258_HEIGHT - 1 {
        0
    } else {
        step_y(f, filter::reflect101_spec(x - 1, GF3258_WIDTH as int), y) + 2 * step_y(f, x, y)
            + step_y(f, filter::reflect101_spec(x + 1, GF3258_WIDTH as int), y)
    }
}

/// Gradient strength: the two magnitudes are halved separately.
pub open spec fn gradient_strength(f: Seq<u8>) -> Seq<u16> {
    Seq::new(
        GF3258_PIXELS as nat,
        |i: int|
            {
                let x = i % GF3258_WIDTH as int;
                let y = i / GF3258_WIDTH as int;
                (arith::abs(reflected_sobel_x(f, x, y)) / 2 + arith::abs(
                    reflected_sobel_y(f, x, y),
                ) / 2) as u16
            },
    )
}

/// Sum of the first `n` of the 225 samples around `(x, y)`, with reflection.
pub open spec fn box_sum(s: Seq<u16>, x: int, y: int, n: nat) -> int
    decreases n,
{
    if n == 0 {
        0
    } else {
        let k = n - 1;
        let sx = filter::reflect101_spec(x + k % 15 - 7, GF3258_WIDTH as int);
        let sy = filter::reflect101_spec(y + k / 15 - 7, GF3258_HEIGHT as int);
        box_sum(s, x, y, (n - 1) as nat) + s[sy * GF3258_WIDTH + sx]
    }
}

/// 15x15 box average by the truncated Q16 reciprocal.
pub open spec fn box_filtered(s: Seq<u16>) -> Seq<u16> {
    Seq::new(
        GF3258_PIXELS as nat,
        |i: int|
            (box_sum(s, i % GF3258_WIDTH as int, i / GF3258_WIDTH as int, 225)
                * GF3258_BD720_BOX_RECIP_Q16 / 65536) as u16,
    )
}

/// Smoothed gradient strength of an image.
pub open spec fn smoothed_strength_spec(source: Seq<u8>) -> Seq<u16> {
    box_filtered(gradient_strength(prefiltered(source)))
}

/// Number of the first `n` values above a threshold.
pub open spec fn count_above(s: Seq<u16>, threshold: u16, n: nat) -> nat
    decreases n,
{
    if n == 0 {
        0
    } else {
        count_above(s, threshold, (n - 1) as nat) + if s[n - 1] > threshold {
            1nat
        } else {
            0nat
        }
    }
}

/// Share of the pixels above a threshold, in Q16.
pub open spec fn coverage_q16_spec(source: Seq<u8>, threshold: u16) -> int {
    count_above(smoothed_strength_spec(source), threshold, GF3258_PIXELS as nat) as int * 65536
        / GF3258_PIXELS as int
}

proof fn lemma_count_above_bound(s: Seq<u16>, threshold: u16, n: nat)
    ensures
        count_above(s, threshold, n) <= n,
    decreases n,
{
    if n > 0 {
        lemma_count_above_bound(s, threshold, (n - 1) as nat);
    }
}

/// A higher threshold selects no more of an image.
pub proof fn lemma_coverage_decreases(source: Seq<u8>, low: u16, high: u16)
    requires
        low <= high,
    ensures
        0 <= coverage_q16_spec(source, high) <= coverage_q16_spec(source, low) <= 65536,
{
    lemma_count_above_monotone(smoothed_strength_spec(source), low, high, GF3258_PIXELS as nat);
    lemma_count_above_bound(smoothed_strength_spec(source), low, GF3258_PIXELS as nat);
}

proof fn lemma_count_above_monotone(s: Seq<u16>, low: u16, high: u16, n: nat)
    requires
        low <= high,
    ensures
        count_above(s, high, n) <= count_above(s, low, n),
    decreases n,
{
    if n > 0 {
        lemma_count_above_monotone(s, low, high, (n - 1) as nat);
    }
}

fn step_x_at(f: &Vec<u8>, x: usize, y: usize) -> (d: i32)
    requires
        f@.len() == GF3258_PIXELS,
        1 <= x < GF3258_WIDTH - 1,
        y < GF3258_HEIGHT,
    ensures
        d == step_x(f@, x as int, y as int),
        -255 <= d <= 255,
{
    f[y * GF3258_WIDTH + x + 1] as i32 - f[y * GF3258_WIDTH + x - 1] as i32
}

fn step_y_at(f: &Vec<u8>, x: usize, y: usize) -> (d: i32)
    requires
        f@.len() == GF3258_PIXELS,
        x < GF3258_WIDTH,
        1 <= y < GF3258_HEIGHT - 1,
    ensures
        d == step_y(f@, x as int, y as int),
        -255 <= d <= 255,
{
    f[(y + 1) * GF3258_WIDTH + x] as i32 - f[(y - 1) * GF3258_WIDTH + x] as i32
}

/// The reflected Sobel derivatives at `(x, y)`.
fn gf3258_bd720_sobel(f: &Vec<u8>, x: usize, y: usize) -> (r: (i32, i32))
    requires
        f@.len() == GF3258_PIXELS,
        x < GF3258_WIDTH,
        y < GF3258_HEIGHT,
    ensures
        r.0 == reflected_sobel_x(f@, x as int, y as int),
        r.1 == reflected_sobel_y(f@, x as int, y as int),
        -1020 <= r.0 <= 1020,
        -1020 <= r.1 <= 1020,
{
    let gx: i32 = if x == 0 || x == GF3258_WIDTH - 1 {
        0
    } else {
        let above: usize = filter::reflect101(y as isize - 1, GF3258_HEIGHT);
        let below: usize = filter::reflect101(y as isize + 1, GF3258_HEIGHT);
        step_x_at(f, x, above) + 2 * step_x_at(f, x, y) + step_x_at(f, x, below)
    };
    let gy: i32 = if y == 0 || y == GF3258_HEIGHT - 1 {
        0
    } else {
        let left: usize = filter::reflect101(x as isize - 1, GF3258_WIDTH);
        let right: usize = filter::reflect101(x as isize + 1, GF3258_WIDTH);
        step_y_at(f, left, y) + 2 * step_y_at(f, x, y) + step_y_at(f, right, y)
    };
    (gx, gy)
}

/// The scaled sum of every window fits in 32 bits.
pub open spec fn box_sums_fit(s: Seq<u16>) -> bool {
    forall|x: int, y: int|
        0 <= x < GF3258_WIDTH && 0 <= y < GF3258_HEIGHT ==> #[trigger] box_sum(s, x, y, 225)
            * GF3258_BD720_BOX_RECIP_Q16 <= i32::MAX
}

proof fn lemma_box_sum_grows(s: Seq<u16>, x: int, y: int, n: nat, m: nat)
    requires
        n <= m,
    ensures
        0 <= box_sum(s, x, y, n) <= box_sum(s, x, y, m),
    decreases m,
{
    if m > n {
        lemma_box_sum_grows(s, x, y, n, (m - 1) as nat);
    } else if n > 0 {
        lemma_box_sum_grows(s, x, y, (n - 1) as nat, (n - 1) as nat);
    }
}

proof fn lemma_box_sum_bound(s: Seq<u16>, x: int, y: int, n: nat)
    requires
        s.len() == GF3258_PIXELS,
        forall|i: int| 0 <= i < GF3258_PIXELS ==> #[trigger] s[i] <= 1020,
        0 <= x < GF3258_WIDTH,
        0 <= y < GF3258_HEIGHT,
        n <= 225,
    ensures
        box_sum(s, x, y, n) <= 1020 * n,
    decreases n,
{
    if n > 0 {
        lemma_box_sum_bound(s, x, y, (n - 1) as nat);
        filter::lemma_reflect101_range(x + (n - 1) % 15 - 7, GF3258_WIDTH as int);
        filter::lemma_reflect101_range(y + (n - 1) / 15 - 7, GF3258_HEIGHT as int);
    }
}

/// Gradient strengths are small enough for their windows.
proof fn lemma_strengths_fit(s: Seq<u16>)
    requires
        s.len() == GF3258_PIXELS,
        forall|i: int| 0 <= i < GF3258_PIXELS ==> #[trigger] s[i] <= 1020,
    ensures
        box_sums_fit(s),
{
    assert forall|x: int, y: int|
        0 <= x < GF3258_WIDTH && 0 <= y < GF3258_HEIGHT implies #[trigger] box_sum(s, x, y, 225)
        * GF3258_BD720_BOX_RECIP_Q16 <= i32::MAX by {
        lemma_box_sum_bound(s, x, y, 225);
    }
}

/// 15x15 reflected box average by the truncated Q16 reciprocal.
pub fn gf3258_bd720_box15_q16(strength: &[u16]) -> (out: Vec<u16>)
    requires
        strength@.len() == GF3258_PIXELS,
        box_sums_fit(strength@),
    ensures
        out@ == box_filtered(strength@),
{
    let mut out: Vec<u16> = Vec::with_capacity(GF3258_PIXELS);
    for i in 0..GF3258_PIXELS
        invariant
            strength@.len() == GF3258_PIXELS,
            box_sums_fit(strength@),
            out@.len() == i,
            forall|j: int| 0 <= j < i ==> out@[j] == box_filtered(strength@)[j],
    {
        let x: usize = i % GF3258_WIDTH;
        let y: usize = i / GF3258_WIDTH;
        let mut sum: i32 = 0;
        for k in 0..225usize
            invariant
                strength@.len() == GF3258_PIXELS,
                box_sums_fit(strength@),
                x < GF3258_WIDTH,
                y < GF3258_HEIGHT,
                sum == box_sum(strength@, x as int, y as int, k as nat),
                0 <= sum,
        {
            proof {
                lemma_box_sum_grows(strength@, x as int, y as int, (k + 1) as nat, 225);
            }
            let sx: usize = filter::reflect101(x as isize + (k % 15) as isize - 7, GF3258_WIDTH);
            let sy: usize = filter::reflect101(y as isize + (k / 15) as isize - 7, GF3258_HEIGHT);
            sum = sum + strength[sy * GF3258_WIDTH + sx] as i32;
        }
        out.push((sum * GF3258_BD720_BOX_RECIP_Q16 / 65536) as u16);
    }
    proof {
        assert(out@ =~= box_filtered(strength@));
    }
    out
}

/// Smoothed gradient strength of an 80x64 image.
fn gf3258_bd720_smoothed_strength(source_u8: &[u8]) -> (result: Result<Vec<u16>, FeatureError>)
    ensures
        source_u8@.len() != GF3258_PIXELS ==> result == Err::<Vec<u16>, FeatureError>(
            FeatureError::UnexpectedPixelCount {
                expected: GF3258_PIXELS,
                actual: source_u8@.len() as usize,
            },
        ),
        source_u8@.len() == GF3258_PIXELS ==> result is Ok && result->Ok_0@
            == smoothed_strength_spec(source_u8@),
{
    if source_u8.len() != GF3258_PIXELS {
        return Err(
            FeatureError::UnexpectedPixelCount { expected: GF3258_PIXELS, actual: source_u8.len() },
        );
    }
    let wide: Vec<u16> = detector::widen_image(source_u8);
    let filtered: Vec<u16> = filter::separable_q16_reflect101(
        wide.as_slice(),
        GF3258_BD720_MODE7_KERNEL.as_slice(),
    );
    let mut narrow: Vec<u8> = Vec::with_capacity(GF3258_PIXELS);
    for i in 0..GF3258_PIXELS
        invariant
            filtered@.len() == GF3258_PIXELS,
            filtered@ == filter::separable_q16_spec(
                detector::widened_image(source_u8@),
                GF3258_BD720_MODE7_KERNEL@,
            ),
            narrow@.len() == i,
            forall|j: int| 0 <= j < i ==> narrow@[j] == prefiltered(source_u8@)[j],
    {
        narrow.push((filtered[i] / 256) as u8);
    }
    proof {
        assert(narrow@ =~= prefiltered(source_u8@));
    }
    let mut strength: Vec<u16> = Vec::with_capacity(GF3258_PIXELS);
    for i in 0..GF3258_PIXELS
        invariant
            narrow@.len() == GF3258_PIXELS,
            strength@.len() == i,
            forall|j: int|
                0 <= j < i ==> (#[trigger] strength@[j]) == gradient_strength(narrow@)[j]
                    && strength@[j] <= 1020,
    {
        let (gx, gy): (i32, i32) = gf3258_bd720_sobel(&narrow, i % GF3258_WIDTH, i / GF3258_WIDTH);
        let ax: i32 = if gx < 0 {
            -gx
        } else {
            gx
        };
        let ay: i32 = if gy < 0 {
            -gy
        } else {
            gy
        };
        strength.push((ax / 2 + ay / 2) as u16);
    }
    proof {
        assert(strength@ =~= gradient_strength(narrow@));
        lemma_strengths_fit(strength@);
    }
    Ok(gf3258_bd720_box15_q16(strength.as_slice()))
}

/// Share of the pixels whose smoothed strength is above a threshold, in Q16.
pub fn gf3258_bd720_coverage_q16_with_threshold(source_u8: &[u8], threshold: u16) -> (result: Result<
    i32,
    FeatureError,
>)
    ensures
        source_u8@.len() != GF3258_PIXELS ==> result == Err::<i32, FeatureError>(
            FeatureError::UnexpectedPixelCount {
                expected: GF3258_PIXELS,
                actual: source_u8@.len() as usize,
            },
        ),
        source_u8@.len() == GF3258_PIXELS ==> result is Ok && result->Ok_0 == coverage_q16_spec(
            source_u8@,
            threshold,
        ) && 0 <= result->Ok_0 <= 65536,
{
    let smoothed: Vec<u16> = match gf3258_bd720_smoothed_strength(source_u8) {
        Ok(smoothed) => smoothed,
        Err(error) => {
            return Err(error);
        },
    };
    let mut selected: i32 = 0;
    for i in 0..GF3258_PIXELS
        invariant
            smoothed@.len() == GF3258_PIXELS,
            selected == count_above(smoothed@, threshold, i as nat),
            0 <= selected <= i,
    {
        if smoothed[i] > threshold {
            selected = selected + 1;
        }
    }
    Ok((selected * 65_536) / GF3258_PIXELS as i32)
}

/// The pixels whose smoothed strength is above the enrollment threshold.
pub open spec fn validity_mask(source: Seq<u8>) -> Seq<u8> {
    Seq::new(
        GF3258_PIXELS as nat,
        |i: int|
            if smoothed_strength_spec(source)[i] > GF3258_BD720_THRESHOLD {
                1u8
            } else {
                0u8
            },
    )
}

/// The fields of a validity result for an image.
pub open spec fn is_validity_of(v: Gf3258Bd720Validity, source: Seq<u8>) -> bool {
    &&& v.mask_u8@ == validity_mask(source)
    &&& v.selected_pixels == count_above(
        smoothed_strength_spec(source),
        GF3258_BD720_THRESHOLD,
        GF3258_PIXELS as nat,
    )
    &&& v.coverage_q16 == coverage_q16_spec(source, GF3258_BD720_THRESHOLD)
}

/// Marks the valid pixels of an 80x64 image.
pub fn gf3258_bd720_validity(source_u8: &[u8]) -> (result: Result<Gf3258Bd720Validity, FeatureError>)
    ensures
        source_u8@.len() != GF3258_PIXELS ==> result == Err::<Gf3258Bd720Validity, FeatureError>(
            FeatureError::UnexpectedPixelCount {
                expected: GF3258_PIXELS,
                actual: source_u8@.len() as usize,
            },
        ),
        source_u8@.len() == GF3258_PIXELS ==> result is Ok && is_validity_of(
            result->Ok_0,
            source_u8@,
        ),
{
    let smoothed: Vec<u16> = match gf3258_bd720_smoothed_strength(source_u8) {
        Ok(smoothed) => smoothed,
        Err(error) => {
            return Err(error);
        },
    };
    let mut mask_u8: Vec<u8> = Vec::with_capacity(GF3258_PIXELS);
    let mut selected_pixels: usize = 0;
    for i in 0..GF3258_PIXELS
        invariant
            smoothed@.len() == GF3258_PIXELS,
            smoothed@ == smoothed_strength_spec(source_u8@),
            selected_pixels == count_above(smoothed@, GF3258_BD720_THRESHOLD, i as nat),
            selected_pixels <= i,
            mask_u8@.len() == i,
            forall|j: int| 0 <= j < i ==> mask_u8@[j] == validity_mask(source_u8@)[j],
    {
        if smoothed[i] > GF3258_BD720_THRESHOLD {
            mask_u8.push(1);
            selected_pixels = selected_pixels + 1;
        } else {
            mask_u8.push(0);
        }
    }
    proof {
        assert(mask_u8@ =~= validity_mask(source_u8@));
    }
    let coverage_q16: u32 = ((selected_pixels as u64 * 65536) / GF3258_PIXELS as u64) as u32;
    Ok(Gf3258Bd720Validity { mask_u8, selected_pixels, coverage_q16 })
}

/// Sum of the first `n` of the sixteen mask bytes of block `c`.
pub open spec fn block_sum(mask: Seq<u8>, c: int, n: nat) -> int
    decreases n,
{
    if n == 0 {
        0
    } else {
        let k = n - 1;
        let x = (c % 20) * 4 + k % 4;
        let y = (c / 20) * 4 + k / 4;
        block_sum(mask, c, (n - 1) as nat) + mask[y * GF3258_WIDTH + x]
    }
}

/// A block is valid when twice its sum exceeds fifteen.
pub open spec fn quarter_validity_spec(mask: Seq<u8>) -> Seq<u8> {
    Seq::new(
        320,
        |c: int|
            if 2 * block_sum(mask, c, 16) > 0x0f {
                1u8
            } else {
                0u8
            },
    )
}

/// Reduces an 80x64 mask to its 4x4 blocks.
pub fn gf3258_a8200_quarter_validity(local_298: &[u8]) -> (result: Result<[u8; 320], FeatureError>)
    ensures
        local_298@.len() != GF3258_PIXELS ==> result == Err::<[u8; 320], FeatureError>(
            FeatureError::UnexpectedPixelCount {
                expected: GF3258_PIXELS,
                actual: local_298@.len() as usize,
            },
        ),
        local_298@.len() == GF3258_PIXELS ==> result is Ok && result->Ok_0@
            == quarter_validity_spec(local_298@),
{
    if local_298.len() != GF3258_PIXELS {
        return Err(
            FeatureError::UnexpectedPixelCount { expected: GF3258_PIXELS, actual: local_298.len() },
        );
    }
    let mut out: [u8; 320] = [0u8;320];
    for c in 0..320usize
        invariant
            local_298@.len() == GF3258_PIXELS,
            forall|j: int| 0 <= j < c ==> out@[j] == quarter_validity_spec(local_298@)[j],
            forall|j: int| c <= j < 320 ==> out@[j] == 0,
    {
        let mut sum: u32 = 0;
        for k in 0..16usize
            invariant
                local_298@.len() == GF3258_PIXELS,
                c < 320,
                sum == block_sum(local_298@, c as int, k as nat),
                sum <= 255 * k,
        {
            let x: usize = (c % 20) * 4 + k % 4;
            let y: usize = (c / 20) * 4 + k / 4;
            sum = sum + local_298[y * GF3258_WIDTH + x] as u32;
        }
        if 0x0f < sum * 2 {
            out[c] = 1;
        }
    }
    proof {
        assert(out@ =~= quarter_validity_spec(local_298@));
    }
    Ok(out)
}

/// Number of nonzero values among the first `n`.
pub open spec fn count_nonzero(s: Seq<u8>, n: nat) -> nat
    decreases n,
{
    if n == 0 {
        0
    } else {
        count_nonzero(s, (n - 1) as nat) + if s[n - 1] != 0 {
            1nat
        } else {
            0nat
        }
    }
}

/// The fields of an enrollment validity for an image.
pub open spec fn is_enrollment_validity_of(v: Gf3258EnrollmentValidity, source: Seq<u8>) -> bool {
    &&& is_validity_of(v.bd720, source)
    &&& v.quarter_validity@ == quarter_validity_spec(validity_mask(source))
    &&& v.quarter_selected_cells == count_nonzero(v.quarter_validity@, 320)
}

/// Marks the valid pixels and the valid blocks of an 80x64 image.
pub fn gf3258_enrollment_validity_from_c2d40_source(source_u8: &[u8]) -> (result: Result<
    Gf3258EnrollmentValidity,
    FeatureError,
>)
    ensures
        source_u8@.len() != GF3258_PIXELS ==> result == Err::<
            Gf3258EnrollmentValidity,
            FeatureError,
        >(
            FeatureError::UnexpectedPixelCount {
                expected: GF3258_PIXELS,
                actual: source_u8@.len() as usize,
            },
        ),
        source_u8@.len() == GF3258_PIXELS ==> result is Ok && is_enrollment_validity_of(
            result->Ok_0,
            source_u8@,
        ),
{
    let bd720: Gf3258Bd720Validity = match gf3258_bd720_validity(source_u8) {
        Ok(bd720) => bd720,
        Err(error) => {
            return Err(error);
        },
    };
    let quarter_validity: [u8; 320] = match gf3258_a8200_quarter_validity(
        bd720.mask_u8.as_slice(),
    ) {
        Ok(quarter) => quarter,
        Err(error) => {
            return Err(error);
        },
    };
    let mut quarter_selected_cells: usize = 0;
    for c in 0..320usize
        invariant
            quarter_selected_cells == count_nonzero(quarter_validity@, c as nat),
            quarter_selected_cells <= c,
    {
        if quarter_validity[c] != 0 {
            quarter_selected_cells = quarter_selected_cells + 1;
        }
    }
    Ok(Gf3258EnrollmentValidity { bd720, quarter_validity, quarter_selected_cells })
}

} // verus!
