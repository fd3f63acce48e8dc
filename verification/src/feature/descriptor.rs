//! GF3258 oriented local descriptor extraction and compact descriptor encoding.
//!
//! The raw descriptor has 4x4 spatial cells of eight orientation bins. It is
//! normalized twice, once whole and once for its central 2x2 cells, and each
//! normalized vector is reduced to the signs of a Hadamard transform and to a
//! comparison of sampled entries with the median.
use vstd::prelude::*;

use crate::arith;
use crate::bytes;
use crate::feature::detector::RefinedExtremum;
use crate::feature::orientation;
use crate::feature::orientation::{GF3258_PI_Q12, GF3258_TAU_Q12};
use crate::feature::{GF3258_HEIGHT, GF3258_PIXELS, GF3258_WIDTH};
use crate::text;

verus! {

pub const GF3258_DESCRIPTOR_SPATIAL_CELLS: usize = 4;

pub const GF3258_DESCRIPTOR_ORIENTATION_BINS: usize = 8;

pub const GF3258_DESCRIPTOR_LEN: usize = 128;

pub const GF3258_DESCRIPTOR_PADDED_CELLS: usize = 6;

pub const GF3258_DESCRIPTOR_PADDED_LEN: usize = 288;

pub const GF3258_DESCRIPTOR_CENTRAL_LEN: usize = 32;

pub const GF3258_DESCRIPTOR_COMPACT_LEN: usize = 32;

pub const GF3258_COMPACT_DESCRIPTOR_REVISION: &'static str = "gf3258-compact-v1";

pub const GF3258_DESCRIPTOR_PROFILE_SCALE_Q16: i32 = 0x1822e;

pub const GF3258_DESCRIPTOR_HASH_BITS: usize = 32;

pub const GF3258_DESCRIPTOR_FULL_HASH_STRIDE: usize = 4;

pub const GF3258_DESCRIPTOR_CENTRAL_HASH_STRIDE: usize = 1;

pub const GF3258_DESCRIPTOR_RADIUS_MAX: i32 = 32;

pub const GF3258_DESCRIPTOR_COORD_LIMIT_Q9: i32 = 0x4ff;

pub const GF3258_DESCRIPTOR_COORD_BIAS_Q9: i32 = 0x300;

pub const GF3258_DESCRIPTOR_RADIUS_MAGIC: i64 = 0x38916;

pub const GF3258_DESCRIPTOR_ANGLE_MAGIC: i32 = 0x145f3;

#[derive(Debug, Clone, PartialEq, Eq)]
pub enum Gf3258DescriptorError {
    UnexpectedMapCount { map: &'static str, expected: usize, actual: usize },
    InvalidScale(i32),
    InvalidOrientation(u16),
}

/// Offsets from the candidate that its descriptor window covers.
#[derive(Debug, Clone, Copy, PartialEq, Eq)]
pub struct Gf3258DescriptorWindow {
    pub x_min_offset: i32,
    pub x_max_offset: i32,
    pub y_min_offset: i32,
    pub y_max_offset: i32,
}

/// The normalized vectors of a descriptor and the four hashes made from them.
#[derive(Debug, Clone, Copy, PartialEq, Eq)]
pub struct Gf3258CompactDescriptor {
    pub norm_128: u32,
    pub clip_128: u32,
    pub normalized_128: [u16; 128],
    pub hadamard_128_words: [u32; 4],
    pub median_hash_128: u32,
    pub norm_32: u32,
    pub clip_32: u32,
    pub normalized_32: [u16; 32],
    pub hadamard_hash_32: u32,
    pub median_hash_32: u32,
}

/// `r` is the floor of the square root of `value`.
pub open spec fn is_floor_sqrt(r: int, value: int) -> bool {
    &&& 0 <= r
    &&& r * r <= value
    &&& value < (r + 1) * (r + 1)
}

/// Floor of a square root.
pub open spec fn floor_sqrt(value: int) -> int {
    choose|r: int| is_floor_sqrt(r, value)
}

/// A value has one floor square root.
pub proof fn lemma_floor_sqrt_unique(r: int, value: int)
    requires
        is_floor_sqrt(r, value),
    ensures
        floor_sqrt(value) == r,
{
    let s = floor_sqrt(value);
    assert(is_floor_sqrt(s, value));
    if s < r {
        assert((s + 1) * (s + 1) <= r * r) by (nonlinear_arith)
            requires
                0 <= s,
                s + 1 <= r,
        ;
    }
    if r < s {
        assert((r + 1) * (r + 1) <= s * s) by (nonlinear_arith)
            requires
                0 <= r,
                r + 1 <= s,
        ;
    }
}

/// Floor of the square root, one binary digit at a time.
pub fn integer_sqrt_u64(value: u64) -> (root: u32)
    ensures
        root == floor_sqrt(value as int),
        is_floor_sqrt(root as int, value as int),
{
    let mut rest: u64 = value;
    let mut result: u64 = 0;
    let mut bit: u64 = 0x4000_0000_0000_0000;
    // `bit` is the square of the digit `b` being tried, `r` the digits found.
    let ghost mut b: int = 0x8000_0000;
    let ghost mut r: int = 0;
    let ghost mut k: nat = 31;
    proof {
        vstd::arithmetic::power2::lemma2_to64();
        vstd::arithmetic::power2::lemma2_to64_rest();
    }
    while bit > rest
        invariant
            rest == value,
            bit == b * b,
            b == (if bit == 0 { 0int } else { vstd::arithmetic::power2::pow2(k) as int }),
            bit == 0 ==> value == 0,
            bit != 0 ==> value < (2 * b) * (2 * b),
            k <= 31,
        decreases bit,
    {
        proof {
            assert(b > 0) by (nonlinear_arith)
                requires
                    bit == b * b,
                    bit > 0,
                    b >= 0,
            ;
            if k == 0 {
                vstd::arithmetic::power2::lemma2_to64();
                assert(b * b == 1) by (nonlinear_arith)
                    requires
                        b == 1,
                ;
                b = 0;
                assert(b * b == 0) by (nonlinear_arith)
                    requires
                        b == 0,
                ;
            } else {
                vstd::arithmetic::power2::lemma_pow2_unfold(k);
                let h = vstd::arithmetic::power2::pow2((k - 1) as nat) as int;
                assert(b == 2 * h);
                assert(b * b == 4 * (h * h)) by (nonlinear_arith)
                    requires
                        b == 2 * h,
                ;
                assert((2 * h) * (2 * h) == 4 * (h * h)) by (nonlinear_arith);
                b = h;
                k = (k - 1) as nat;
                vstd::arithmetic::power2::lemma_pow2_pos(k);
                assert(h * h > 0) by (nonlinear_arith)
                    requires
                        h > 0,
                ;
            }
        }
        bit = bit / 4;
    }
    while bit != 0
        invariant
            rest == value - r * r,
            0 <= r,
            r * r <= value,
            bit != 0 ==> {
                &&& bit == b * b
                &&& b == vstd::arithmetic::power2::pow2(k) as int
                &&& k <= 31
                &&& result == 2 * (r * b)
                &&& value < (r + 2 * b) * (r + 2 * b)
                &&& r + 2 * b <= 0x1_0000_0000
            },
            bit == 0 ==> result == r && value < (r + 1) * (r + 1) && r < 0x1_0000_0000,
        decreases bit,
    {
        let ghost r0 = r;
        let ghost b0 = b;
        proof {
            vstd::arithmetic::power2::lemma_pow2_pos(k);
            assert((r + b) * (r + b) == r * r + 2 * (r * b) + b * b) by (nonlinear_arith);
            assert(2 * (r * b) + b * b <= 0xffff_ffff_ffff_ffff) by (nonlinear_arith)
                requires
                    0 <= r,
                    1 <= b,
                    r + 2 * b <= 0x1_0000_0000,
            ;
        }
        if rest >= result + bit {
            rest = rest - (result + bit);
            result = result / 2 + bit;
            proof {
                r = r0 + b0;
            }
        } else {
            result = result / 2;
        }
        // Now `r * r <= value < (r + b0)^2` and `result == r * b0`.
        proof {
            assert((r0 + b0) * b0 == r0 * b0 + b0 * b0) by (nonlinear_arith);
            assert((r0 + b0) + b0 == r0 + 2 * b0);
            if k == 0 {
                vstd::arithmetic::power2::lemma2_to64();
                assert(b0 == 1);
                assert(r * 1 == r);
            } else {
                vstd::arithmetic::power2::lemma_pow2_unfold(k);
                let h = vstd::arithmetic::power2::pow2((k - 1) as nat) as int;
                vstd::arithmetic::power2::lemma_pow2_pos((k - 1) as nat);
                assert(b0 == 2 * h);
                assert(b0 * b0 == 4 * (h * h)) by (nonlinear_arith)
                    requires
                        b0 == 2 * h,
                ;
                assert(r * b0 == 2 * (r * h)) by (nonlinear_arith)
                    requires
                        b0 == 2 * h,
                ;
                assert(h * h > 0) by (nonlinear_arith)
                    requires
                        h > 0,
                ;
                b = h;
                k = (k - 1) as nat;
            }
        }
        bit = bit / 4;
    }
    proof {
        lemma_floor_sqrt_unique(r, value as int);
    }
    result as u32
}

pub fn integer_sqrt_u32(value: u32) -> (root: u32)
    ensures
        root == floor_sqrt(value as int),
        root <= 65535,
{
    let root: u32 = integer_sqrt_u64(value as u64);
    assert(root <= 65535) by (nonlinear_arith)
        requires
            root * root <= value,
            value <= 0xffff_ffff,
    ;
    root
}

/// Sum of the squares of the first `n` values.
pub open spec fn sum_of_squares(raw: Seq<u32>, n: nat) -> int
    decreases n,
{
    if n == 0 {
        0
    } else {
        sum_of_squares(raw, (n - 1) as nat) + raw[n - 1] * raw[n - 1]
    }
}

/// Euclidean norm of a vector; the sum of squares is kept in 64 bits.
pub open spec fn vector_norm(raw: Seq<u32>) -> int {
    floor_sqrt(sum_of_squares(raw, raw.len()) % 0x1_0000_0000_0000_0000)
}

/// One fifth of the norm: the value from which entries are clipped.
pub open spec fn clip_level(raw: Seq<u32>) -> int {
    vector_norm(raw) * 0x3333 / 65536
}

/// Square roots of the entries, clipped.
pub open spec fn normalized(raw: Seq<u32>) -> Seq<u16> {
    Seq::new(
        raw.len(),
        |i: int|
            if raw[i] >= clip_level(raw) {
                floor_sqrt(clip_level(raw)) as u16
            } else {
                floor_sqrt(raw[i] as int) as u16
            },
    )
}

/// Normalizes a descriptor vector.
fn bdee0_normalize(raw: &[u32]) -> (r: (Vec<u16>, u32, u32))
    ensures
        r.0@ == normalized(raw@),
        r.1 == vector_norm(raw@),
        r.2 == clip_level(raw@),
{
    let mut sum_sq: u64 = 0;
    for i in 0..raw.len()
        invariant
            sum_sq == sum_of_squares(raw@, i as nat) % 0x1_0000_0000_0000_0000,
    {
        let value: u64 = raw[i] as u64;
        proof {
            assert(0 <= value * value <= 0xffff_ffff * 0xffff_ffff) by (nonlinear_arith)
                requires
                    0 <= value <= 0xffff_ffff,
            ;
        }
        sum_sq = sum_sq.wrapping_add(value * value);
    }
    let norm: u32 = integer_sqrt_u64(sum_sq);
    let clip: u32 = ((norm as u64 * 0x3333) / 65536) as u32;
    let clipped_sqrt: u16 = integer_sqrt_u32(clip) as u16;
    let mut out: Vec<u16> = Vec::with_capacity(raw.len());
    for i in 0..raw.len()
        invariant
            clip == clip_level(raw@),
            clipped_sqrt == floor_sqrt(clip as int) as u16,
            out@.len() == i,
            forall|j: int| 0 <= j < i ==> out@[j] == normalized(raw@)[j],
    {
        let value: u32 = raw[i];
        if value >= clip {
            out.push(clipped_sqrt);
        } else {
            out.push(integer_sqrt_u32(value) as u16);
        }
    }
    proof {
        assert(out@ =~= normalized(raw@));
    }
    (out, norm, clip)
}

/// Sign of the Sylvester-Hadamard matrix: negative where `row` and `col` share
/// an odd number of binary ones.
pub open spec fn hadamard_negative(row: nat, col: nat) -> bool
    decreases row,
{
    if row == 0 || col == 0 {
        false
    } else {
        (row % 2 == 1 && col % 2 == 1) != hadamard_negative(row / 2, col / 2)
    }
}

pub fn sylvester_hadamard_negative(row: usize, col: usize) -> (negative: bool)
    ensures
        negative == hadamard_negative(row as nat, col as nat),
{
    let mut r: usize = row;
    let mut c: usize = col;
    let mut odd: bool = false;
    while r != 0 && c != 0
        invariant
            hadamard_negative(row as nat, col as nat) == (odd != hadamard_negative(
                r as nat,
                c as nat,
            )),
        decreases r,
    {
        if r % 2 == 1 && c % 2 == 1 {
            odd = !odd;
        }
        r = r / 2;
        c = c / 2;
    }
    odd
}

/// Packs flags into a word, flag `i` into bit `i`.
pub open spec fn packed(bits: Seq<bool>, n: nat) -> u32
    decreases n,
{
    if n == 0 {
        0u32
    } else {
        let word = packed(bits, (n - 1) as nat);
        if bits[n - 1] {
            word | (1u32 << ((n - 1) as u32))
        } else {
            word
        }
    }
}

/// Bit `i` of a packed word is flag `i`; the bits above the last flag are clear.
pub proof fn lemma_packed_bit(bits: Seq<bool>, n: nat, i: u32)
    requires
        n <= 32,
        i < 32,
    ensures
        ((packed(bits, n) >> i) & 1u32 == 1u32) == (i < n && bits[i as int]),
    decreases n,
{
    if n == 0 {
        assert((0u32 >> i) & 1u32 == 0u32) by (bit_vector);
    } else {
        lemma_packed_bit(bits, (n - 1) as nat, i);
        let word = packed(bits, (n - 1) as nat);
        let k = (n - 1) as u32;
        assert((((word | (1u32 << k)) >> i) & 1u32 == 1u32) == ((word >> i) & 1u32 == 1u32 || i == k))
            by (bit_vector)
            requires
                k < 32,
                i < 32,
        ;
    }
}

/// An entry with the sign of the matrix, in 16 bits.
pub open spec fn signed_entry(values: Seq<u16>, row: int, col: int) -> u16 {
    if hadamard_negative(row as nat, col as nat) {
        0u16.wrapping_sub(values[col])
    } else {
        values[col]
    }
}

/// Sum of the first `n` signed entries from column `start` on.
pub open spec fn signed_sum(values: Seq<u16>, row: int, start: int, n: nat) -> int
    decreases n,
{
    if n == 0 {
        0
    } else {
        signed_sum(values, row, start, (n - 1) as nat) + signed_entry(values, row, start + n - 1)
    }
}

/// Sum of one quarter of the row, reduced to a signed 16-bit value.
pub open spec fn quarter_sum(values: Seq<u16>, row: int, start: int) -> int {
    ((signed_sum(values, row, start, 32) as u16) as i16) as int
}

/// Row `word * 32 + bit` of the transform, combined from quarter sums of row `bit`.
pub open spec fn hadamard_total(values: Seq<u16>, word: int, bit: int) -> int {
    let a = quarter_sum(values, bit, 0);
    let b = quarter_sum(values, bit, 32);
    let c = quarter_sum(values, bit, 64);
    let d = quarter_sum(values, bit, 96);
    if word == 0 {
        a + b + c + d
    } else if word == 1 {
        a - b + c - d
    } else if word == 2 {
        a + b - c - d
    } else {
        a - b - c + d
    }
}

/// Flags of the 32 rows that one word holds.
pub open spec fn hadamard_bits(values: Seq<u16>, word: int) -> Seq<bool> {
    Seq::new(32, |bit: int| hadamard_total(values, word, bit) > 0)
}

pub open spec fn hadamard_word(values: Seq<u16>, word: int) -> u32 {
    packed(hadamard_bits(values, word), 32)
}

fn c7b80_quarter_sum_i16(row: usize, start_col: usize, values: &[u16; 128]) -> (sum: i32)
    requires
        start_col <= 96,
    ensures
        sum == quarter_sum(values@, row as int, start_col as int),
        -0x8000 <= sum <= 0x7fff,
{
    let mut sum: u32 = 0;
    for k in 0..32usize
        invariant
            start_col <= 96,
            sum == signed_sum(values@, row as int, start_col as int, k as nat),
            sum <= 65535 * k,
    {
        let col: usize = start_col + k;
        let value: u16 = values[col];
        let entry: u16 = if sylvester_hadamard_negative(row, col) {
            0u16.wrapping_sub(value)
        } else {
            value
        };
        sum = sum + entry as u32;
    }
    ((sum as u16) as i16) as i32
}

/// The 128 sign bits of the transform of a normalized vector.
pub fn c7b80_hadamard_128(values: &[u16; 128]) -> (words: [u32; 4])
    ensures
        forall|w: int| 0 <= w < 4 ==> words@[w] == hadamard_word(values@, w),
{
    let mut words: [u32; 4] = [0u32;4];
    for bit in 0..32usize
        invariant
            forall|w: int|
                0 <= w < 4 ==> words@[w] == packed(hadamard_bits(values@, w), bit as nat),
    {
        let a: i32 = c7b80_quarter_sum_i16(bit, 0, values);
        let b: i32 = c7b80_quarter_sum_i16(bit, 32, values);
        let c: i32 = c7b80_quarter_sum_i16(bit, 64, values);
        let d: i32 = c7b80_quarter_sum_i16(bit, 96, values);
        let flag: u32 = 1u32 << (bit as u32);
        if a + b + c + d > 0 {
            words[0] = words[0] | flag;
        }
        if a - b + c - d > 0 {
            words[1] = words[1] | flag;
        }
        if a + b - c - d > 0 {
            words[2] = words[2] | flag;
        }
        if a - b - c + d > 0 {
            words[3] = words[3] | flag;
        }
        proof {
            assert(hadamard_bits(values@, 0)[bit as int] == (a + b + c + d > 0));
            assert(hadamard_bits(values@, 1)[bit as int] == (a - b + c - d > 0));
            assert(hadamard_bits(values@, 2)[bit as int] == (a + b - c - d > 0));
            assert(hadamard_bits(values@, 3)[bit as int] == (a - b - c + d > 0));
        }
    }
    words
}

/// Sum of the first `n` entries of a 32-vector with the signs of one row.
pub open spec fn central_sum(values: Seq<u16>, row: int, n: nat) -> int
    decreases n,
{
    if n == 0 {
        0
    } else {
        let value = (values[n - 1] as i16) as int;
        central_sum(values, row, (n - 1) as nat) + if hadamard_negative(
            row as nat,
            (n - 1) as nat,
        ) {
            -value
        } else {
            value
        }
    }
}

pub open spec fn central_bits(values: Seq<u16>) -> Seq<bool> {
    Seq::new(32, |row: int| central_sum(values, row, 32) > 0)
}

/// The 32 sign bits of the transform of a normalized central vector.
pub fn c7f40_hadamard_32(values: &[u16; 32]) -> (word: u32)
    ensures
        word == packed(central_bits(values@), 32),
{
    let mut word: u32 = 0;
    for row in 0..32usize
        invariant
            word == packed(central_bits(values@), row as nat),
    {
        let mut sum: i32 = 0;
        for col in 0..32usize
            invariant
                sum == central_sum(values@, row as int, col as nat),
                -0x8000 * col <= sum <= 0x8000 * col,
        {
            let value: i32 = (values[col] as i16) as i32;
            if sylvester_hadamard_negative(row, col) {
                sum = sum - value;
            } else {
                sum = sum + value;
            }
        }
        proof {
            assert(central_bits(values@)[row as int] == (sum > 0));
        }
        if sum > 0 {
            word = word | (1u32 << (row as u32));
        }
    }
    word
}

/// Order of 16-bit patterns read as signed values.
pub open spec fn signed_leq() -> spec_fn(u16, u16) -> bool {
    |a: u16, b: u16| (a as i16) <= (b as i16)
}

/// The patterns are totally ordered: different patterns are different values.
proof fn lemma_signed_leq_total()
    ensures
        vstd::relations::total_ordering(signed_leq()),
{
    let leq = signed_leq();
    assert forall|a: u16, b: u16| #[trigger] leq(a, b) && #[trigger] leq(b, a) implies a == b by {
        assert((a as i16) == (b as i16) ==> a == b) by (bit_vector);
    }
}

/// Lower median of the values in signed order.
pub open spec fn lower_median(values: Seq<u16>) -> u16 {
    values.sort_by(signed_leq())[(values.len() - 1) / 2]
}

/// Lower median of the values in signed order.
pub fn c8040_lower_median_signed(values: &[u16]) -> (median: u16)
    requires
        values@.len() > 0,
    ensures
        median == lower_median(values@),
{
    let ghost leq = signed_leq();
    let mut sorted: Vec<u16> = Vec::with_capacity(values.len());
    assert(sorted@ =~= values@.take(0));
    for i in 0..values.len()
        invariant
            sorted@.len() == i,
            leq == signed_leq(),
            vstd::relations::sorted_by(sorted@, leq),
            sorted@.to_multiset() == values@.take(i as int).to_multiset(),
    {
        let value: u16 = values[i];
        let key: i16 = value as i16;
        let mut at: usize = 0;
        while at < sorted.len() && (sorted[at] as i16) <= key
            invariant
                at <= sorted@.len(),
                key == value as i16,
                forall|j: int| 0 <= j < at ==> (#[trigger] sorted@[j] as i16) <= key,
            decreases sorted@.len() - at,
        {
            at = at + 1;
        }
        let ghost before = sorted@;
        proof {
            assert forall|j: int| at <= j < before.len() implies key <= (#[trigger] before[j] as i16) by {
                if j > at {
                    assert(leq(before[at as int], before[j]));
                }
            }
            vstd::seq_lib::to_multiset_insert(before, at as int, value);
            vstd::seq_lib::to_multiset_build(values@.take(i as int), value);
            assert(values@.take(i + 1) =~= values@.take(i as int).push(value));
        }
        sorted.insert(at, value);
        proof {
            assert forall|j: int, k: int| 0 <= j < k < sorted@.len() implies #[trigger] leq(
                sorted@[j],
                sorted@[k],
            ) by {
                if j < at && k > at {
                    assert(leq(before[j], before[k - 1]));
                } else if k < at {
                    assert(leq(before[j], before[k]));
                } else if j > at {
                    assert(leq(before[j - 1], before[k - 1]));
                } else if k == at {
                    assert((before[j] as i16) <= key);
                } else {
                    assert(key <= (before[k - 1] as i16));
                }
            }
        }
    }
    proof {
        assert(values@.take(values@.len() as int) =~= values@);
        lemma_signed_leq_total();
        values@.lemma_sort_by_ensures(leq);
        vstd::seq_lib::lemma_sorted_unique(sorted@, values@.sort_by(leq), leq);
    }
    sorted[(values.len() - 1) / 2]
}

/// Flags of the sampled entries `offset + bit * stride` above the median.
pub open spec fn above_median_bits(values: Seq<u16>, offset: int, stride: int) -> Seq<bool> {
    Seq::new(
        32,
        |bit: int| (values[offset + bit * stride] as i16) > (lower_median(values) as i16),
    )
}

/// Every fourth entry from the second on, compared with the median.
pub fn c8040_median_hash_128(values: &[u16; 128]) -> (word: u32)
    ensures
        word == packed(above_median_bits(values@, 1, 4), 32),
{
    let median: i16 = c8040_lower_median_signed(values.as_slice()) as i16;
    let mut word: u32 = 0;
    for bit in 0..32usize
        invariant
            median == lower_median(values@) as i16,
            word == packed(above_median_bits(values@, 1, 4), bit as nat),
    {
        let sample: i16 = values[1 + bit * 4] as i16;
        proof {
            assert(above_median_bits(values@, 1, 4)[bit as int] == (sample > median));
        }
        if sample > median {
            word = word | (1u32 << (bit as u32));
        }
    }
    word
}

/// Every entry, compared with the median.
pub fn c8040_median_hash_32(values: &[u16; 32]) -> (word: u32)
    ensures
        word == packed(above_median_bits(values@, 0, 1), 32),
{
    let median: i16 = c8040_lower_median_signed(values.as_slice()) as i16;
    let mut word: u32 = 0;
    for bit in 0..32usize
        invariant
            median == lower_median(values@) as i16,
            word == packed(above_median_bits(values@, 0, 1), bit as nat),
    {
        let sample: i16 = values[bit] as i16;
        proof {
            assert(above_median_bits(values@, 0, 1)[bit as int] == (sample > median));
        }
        if sample > median {
            word = word | (1u32 << (bit as u32));
        }
    }
    word
}

/// The compact form of a 128-entry descriptor and of its central 32 entries.
pub open spec fn is_compact_of(c: Gf3258CompactDescriptor, full: Seq<u32>, central: Seq<u32>) -> bool {
    &&& c.norm_128 == vector_norm(full)
    &&& c.clip_128 == clip_level(full)
    &&& c.normalized_128@ == normalized(full)
    &&& forall|w: int|
        0 <= w < 4 ==> #[trigger] c.hadamard_128_words@[w] == hadamard_word(normalized(full), w)
    &&& c.median_hash_128 == packed(above_median_bits(normalized(full), 1, 4), 32)
    &&& c.norm_32 == vector_norm(central)
    &&& c.clip_32 == clip_level(central)
    &&& c.normalized_32@ == normalized(central)
    &&& c.hadamard_hash_32 == packed(central_bits(normalized(central)), 32)
    &&& c.median_hash_32 == packed(above_median_bits(normalized(central), 0, 1), 32)
}

/// Normalizes a descriptor and its central cells and derives their hashes.
pub fn gf3258_compact_descriptor(
    descriptor_128: &[u32; 128],
    central_descriptor_32: &[u32; 32],
) -> (compact: Gf3258CompactDescriptor)
    ensures
        is_compact_of(compact, descriptor_128@, central_descriptor_32@),
{
    let (full, norm_128, clip_128): (Vec<u16>, u32, u32) = bdee0_normalize(
        descriptor_128.as_slice(),
    );
    let mut normalized_128: [u16; 128] = [0u16;128];
    for i in 0..128usize
        invariant
            full@.len() == 128,
            forall|j: int| 0 <= j < i ==> normalized_128@[j] == full@[j],
    {
        normalized_128[i] = full[i];
    }
    let (central, norm_32, clip_32): (Vec<u16>, u32, u32) = bdee0_normalize(
        central_descriptor_32.as_slice(),
    );
    let mut normalized_32: [u16; 32] = [0u16;32];
    for i in 0..32usize
        invariant
            central@.len() == 32,
            forall|j: int| 0 <= j < i ==> normalized_32@[j] == central@[j],
    {
        normalized_32[i] = central[i];
    }
    proof {
        assert(normalized_128@ =~= normalized(descriptor_128@));
        assert(normalized_32@ =~= normalized(central_descriptor_32@));
    }
    let hadamard_128_words: [u32; 4] = c7b80_hadamard_128(&normalized_128);
    let median_hash_128: u32 = c8040_median_hash_128(&normalized_128);
    let hadamard_hash_32: u32 = c7f40_hadamard_32(&normalized_32);
    let median_hash_32: u32 = c8040_median_hash_32(&normalized_32);
    Gf3258CompactDescriptor {
        norm_128,
        clip_128,
        normalized_128,
        hadamard_128_words,
        median_hash_128,
        norm_32,
        clip_32,
        normalized_32,
        hadamard_hash_32,
        median_hash_32,
    }
}

impl Gf3258CompactDescriptor {
    /// The stored bytes: transform signs, median hash, four zero bytes, and the
    /// two central hashes, each word least significant byte first.
    pub open spec fn point_bytes(&self) -> Seq<u8> {
        bytes::le32(self.hadamard_128_words@[0]) + bytes::le32(self.hadamard_128_words@[1])
            + bytes::le32(self.hadamard_128_words@[2]) + bytes::le32(self.hadamard_128_words@[3])
            + bytes::le32(self.median_hash_128) + bytes::le32(0) + bytes::le32(
            self.hadamard_hash_32,
        ) + bytes::le32(self.median_hash_32)
    }

    pub fn feature_point_bytes_10_2f(&self) -> (out: [u8; 32])
        ensures
            out@ == self.point_bytes(),
    {
        let words: [u32; 8] = [
            self.hadamard_128_words[0],
            self.hadamard_128_words[1],
            self.hadamard_128_words[2],
            self.hadamard_128_words[3],
            self.median_hash_128,
            0,
            self.hadamard_hash_32,
            self.median_hash_32,
        ];
        let mut out: [u8; 32] = [0u8;32];
        for w in 0..8usize
            invariant
                forall|k: int, j: int|
                    0 <= k < w && 0 <= j < 4 ==> #[trigger] out@[k * 4 + j] == bytes::le32(
                        words@[k],
                    )[j],
        {
            let word: [u8; 4] = bytes::le32_bytes(words[w]);
            out[w * 4] = word[0];
            out[w * 4 + 1] = word[1];
            out[w * 4 + 2] = word[2];
            out[w * 4 + 3] = word[3];
        }
        proof {
            assert forall|i: int| 0 <= i < 32 implies out@[i] == self.point_bytes()[i] by {
                let k = i / 4;
                let j = i % 4;
                assert(out@[k * 4 + j] == bytes::le32(words@[k])[j]);
            }
            assert(out@ =~= self.point_bytes());
        }
        out
    }
}

/// Descriptor of one candidate, with the intermediate values.
#[derive(Debug, Clone, PartialEq, Eq)]
pub struct Gf3258DescriptorResult {
    pub radius: i32,
    pub gaussian_arg: i32,
    pub window: Gf3258DescriptorWindow,
    /// Sine and cosine of the orientation in Q14.
    pub sin_q14: i32,
    pub cos_q14: i32,
    /// Displacement of the rotated sampling coordinate for one pixel, in Q9.
    pub cos_step_q9: i32,
    pub sin_step_q9: i32,
    pub padded_histogram: [u32; 288],
    pub descriptor_128: [u32; 128],
    /// The central cells (1,1), (1,2), (2,1), (2,2).
    pub central_descriptor_32: [u32; 32],
    pub compact: Gf3258CompactDescriptor,
}

/// One interpolated vote into two neighbouring orientation bins of a cell. The
/// share of the first bin loses its fraction before it is scaled, that of the
/// second one after.
pub open spec fn add_vote(
    h: Seq<u32>,
    cell: int,
    bin0: int,
    bin1: int,
    value: u32,
    frac_q12: u32,
) -> Seq<u32> {
    let product = value.wrapping_mul(frac_q12);
    let first = cell * 8 + bin0;
    let second = cell * 8 + bin1;
    let partial = h.update(first, h[first].wrapping_add(value.wrapping_sub(product / 4096) / 32));
    partial.update(second, partial[second].wrapping_add(product / 131072))
}

fn add_descriptor_vote(
    histogram: &mut [u32; 288],
    cell: usize,
    bin0: usize,
    bin1: usize,
    value: u32,
    frac_q12: u32,
)
    requires
        cell < 36,
        bin0 < 8,
        bin1 < 8,
    ensures
        final(histogram)@ == add_vote(
            old(histogram)@,
            cell as int,
            bin0 as int,
            bin1 as int,
            value,
            frac_q12,
        ),
{
    let product: u32 = value.wrapping_mul(frac_q12);
    let contribution0: u32 = value.wrapping_sub(product / 4096) / 32;
    let contribution1: u32 = product / 131072;
    let base: usize = cell * 8;
    let ghost before = histogram@;
    let first: u32 = histogram[base + bin0].wrapping_add(contribution0);
    histogram[base + bin0] = first;
    let second: u32 = histogram[base + bin1].wrapping_add(contribution1);
    histogram[base + bin1] = second;
    proof {
        assert(histogram@ =~= add_vote(
            before,
            cell as int,
            bin0 as int,
            bin1 as int,
            value,
            frac_q12,
        ));
    }
}

/// The planes around a candidate, with the rotation and scale of its descriptor.
pub struct DescriptorField {
    pub magnitude: Seq<i32>,
    pub angle: Seq<u16>,
    pub x: int,
    pub y: int,
    pub gaussian_arg: u32,
    pub cos_step: int,
    pub sin_step: int,
    pub orientation: int,
}

impl DescriptorField {
    pub open spec fn pixel(self, dx: int, dy: int) -> int {
        (self.y + dy) * GF3258_WIDTH + self.x + dx
    }

    pub open spec fn rotated_x(self, dx: int, dy: int) -> int {
        self.cos_step * dx - self.sin_step * dy
    }

    pub open spec fn rotated_y(self, dx: int, dy: int) -> int {
        self.sin_step * dx + self.cos_step * dy
    }

    /// The rotated sample lies within the sampled square.
    pub open spec fn inside(self, dx: int, dy: int) -> bool {
        &&& arith::abs(self.rotated_x(dx, dy)) <= GF3258_DESCRIPTOR_COORD_LIMIT_Q9
        &&& arith::abs(self.rotated_y(dx, dy)) <= GF3258_DESCRIPTOR_COORD_LIMIT_Q9
    }

    /// Weighted magnitude of a sample, as a 32-bit pattern.
    pub open spec fn weighted(self, dx: int, dy: int) -> u32 {
        let weight = orientation::spatial_weight(
            self.gaussian_arg,
            arith::abs(dx),
            arith::abs(dy),
        ) as i32;
        ((weight.wrapping_mul(self.magnitude[self.pixel(dx, dy)]) as int / 512) as i32) as u32
    }

    /// Gradient angle relative to the orientation, in one turn.
    pub open spec fn relative_angle(self, dx: int, dy: int) -> int {
        (GF3258_PI_Q12 - (self.angle[self.pixel(dx, dy)] as i16) as int - self.orientation)
            % GF3258_TAU_Q12 as int
    }

    /// Adds one sample: its weight is split over four cells by the fractions of
    /// its position and over two bins by the fraction of its angle.
    pub open spec fn add_sample(self, h: Seq<u32>, dx: int, dy: int) -> Seq<u32> {
        if !self.inside(dx, dy) {
            h
        } else {
            let spatial_x = self.rotated_x(dx, dy) + GF3258_DESCRIPTOR_COORD_BIAS_Q9;
            let spatial_y = self.rotated_y(dx, dy) + GF3258_DESCRIPTOR_COORD_BIAS_Q9;
            let frac_x = (spatial_x % 512) as u32;
            let frac_y = (spatial_y % 512) as u32;
            let cell = (spatial_y / 512 + 1) * 6 + spatial_x / 512 + 1;
            let turn = self.relative_angle(dx, dy) * GF3258_DESCRIPTOR_ANGLE_MAGIC;
            let bin0 = turn / 0x1000_0000;
            let bin1 = (bin0 + 1) % 8;
            let frac = ((turn / 65536) % 4096) as u32;
            let magnitude = self.weighted(dx, dy);
            let y1 = magnitude.wrapping_mul(frac_y) / 512;
            let y0 = magnitude.wrapping_sub(y1);
            let y1_x1 = y1.wrapping_mul(frac_x) / 512;
            let y1_x0 = y1.wrapping_sub(y1_x1);
            let y0_x1 = y0.wrapping_mul(frac_x) / 512;
            let y0_x0 = y0.wrapping_sub(y0_x1);
            let h0 = add_vote(h, cell, bin0, bin1, y0_x0, frac);
            let h1 = add_vote(h0, cell + 1, bin0, bin1, y0_x1, frac);
            let h2 = add_vote(h1, cell + 6, bin0, bin1, y1_x0, frac);
            add_vote(h2, cell + 7, bin0, bin1, y1_x1, frac)
        }
    }

    /// Adds the samples `(x_min..=x_max, dy)` from left to right.
    pub open spec fn add_row(self, h: Seq<u32>, dy: int, x_min: int, x_max: int) -> Seq<u32>
        decreases x_max - x_min + 1,
    {
        if x_max < x_min {
            h
        } else {
            self.add_sample(self.add_row(h, dy, x_min, x_max - 1), x_max, dy)
        }
    }

    /// Adds the rows `y_min..=y_max` from top to bottom.
    pub open spec fn add_rows(
        self,
        h: Seq<u32>,
        y_min: int,
        y_max: int,
        x_min: int,
        x_max: int,
    ) -> Seq<u32>
        decreases y_max - y_min + 1,
    {
        if y_max < y_min {
            h
        } else {
            self.add_row(self.add_rows(h, y_min, y_max - 1, x_min, x_max), y_max, x_min, x_max)
        }
    }
}

/// Three times the profile scale, in 32 bits.
pub open spec fn tripled_scale(scale_q16: i32) -> i32 {
    scale_q16.wrapping_mul(3)
}

/// Descriptor radius for a scale: rounded, at most 32.
pub open spec fn descriptor_radius(scale_q16: i32) -> int {
    let rounded = (tripled_scale(scale_q16) * GF3258_DESCRIPTOR_RADIUS_MAGIC + 0x8000_0000)
        / 0x1_0000_0000;
    if rounded > GF3258_DESCRIPTOR_RADIUS_MAX {
        GF3258_DESCRIPTOR_RADIUS_MAX as int
    } else {
        rounded
    }
}

pub open spec fn descriptor_gaussian_arg(scale_q16: i32) -> i32 {
    let s = tripled_scale(scale_q16);
    (0x2000_0000_0000int / (s * s)) as i32
}

/// A Q14 rotation component scaled to a Q9 step per pixel.
pub open spec fn rotation_step_q9(component_q14: i32, scale_q16: i32) -> int {
    let inverse = arith::trunc_div(0x10_0000_0000, tripled_scale(scale_q16) as int) as i32;
    (component_q14 * inverse) / 0x200_0000
}

pub open spec fn descriptor_window(x: int, y: int, radius: int) -> Gf3258DescriptorWindow {
    let w = orientation::orientation_window(x, y, radius);
    Gf3258DescriptorWindow {
        x_min_offset: w.x_min_offset,
        x_max_offset: w.x_max_offset,
        y_min_offset: w.y_min_offset,
        y_max_offset: w.y_max_offset,
    }
}

pub open spec fn descriptor_field(
    candidate: RefinedExtremum,
    orientation_q12: u16,
    scale_q16: i32,
    magnitude: Seq<i32>,
    angle: Seq<u16>,
) -> DescriptorField {
    let (sin, cos) = orientation::sin_cos_q14_spec(orientation_q12);
    DescriptorField {
        magnitude,
        angle,
        x: (candidate.x as i32) as int,
        y: (candidate.y as i32) as int,
        gaussian_arg: descriptor_gaussian_arg(scale_q16) as u32,
        cos_step: rotation_step_q9(cos, scale_q16),
        sin_step: rotation_step_q9(sin, scale_q16),
        orientation: orientation_q12 as int,
    }
}

/// Position in the padded histogram of entry `i` of the descriptor: the inner
/// 4x4 of the 6x6 cells.
pub open spec fn padded_position(i: int) -> int {
    ((i / 32 + 1) * 6 + (i / 8) % 4 + 1) * 8 + i % 8
}

/// Position in the descriptor of entry `i` of the central vector.
pub open spec fn central_position(i: int) -> int {
    (5 + (i / 8) % 2 + (i / 16) * 4) * 8 + i % 8
}

pub open spec fn inner_cells(padded: Seq<u32>) -> Seq<u32> {
    Seq::new(128, |i: int| padded[padded_position(i)])
}

pub open spec fn central_cells(descriptor: Seq<u32>) -> Seq<u32> {
    Seq::new(32, |i: int| descriptor[central_position(i)])
}

/// The padded histogram of a candidate.
pub open spec fn padded_histogram_spec(
    candidate: RefinedExtremum,
    orientation_q12: u16,
    scale_q16: i32,
    magnitude: Seq<i32>,
    angle: Seq<u16>,
) -> Seq<u32> {
    let f = descriptor_field(candidate, orientation_q12, scale_q16, magnitude, angle);
    let w = descriptor_window(f.x, f.y, descriptor_radius(scale_q16));
    f.add_rows(
        Seq::new(288, |i: int| 0u32),
        w.y_min_offset as int,
        w.y_max_offset as int,
        w.x_min_offset as int,
        w.x_max_offset as int,
    )
}

/// The fields of a descriptor result for a candidate.
pub open spec fn is_descriptor_of(
    r: Gf3258DescriptorResult,
    candidate: RefinedExtremum,
    orientation_q12: u16,
    scale_q16: i32,
    magnitude: Seq<i32>,
    angle: Seq<u16>,
) -> bool {
    let f = descriptor_field(candidate, orientation_q12, scale_q16, magnitude, angle);
    &&& r.radius == descriptor_radius(scale_q16)
    &&& r.gaussian_arg == descriptor_gaussian_arg(scale_q16)
    &&& r.window == descriptor_window(f.x, f.y, r.radius as int)
    &&& (r.sin_q14, r.cos_q14) == orientation::sin_cos_q14_spec(orientation_q12)
    &&& r.cos_step_q9 == f.cos_step
    &&& r.sin_step_q9 == f.sin_step
    &&& r.padded_histogram@ == padded_histogram_spec(
        candidate,
        orientation_q12,
        scale_q16,
        magnitude,
        angle,
    )
    &&& r.descriptor_128@ == inner_cells(r.padded_histogram@)
    &&& r.central_descriptor_32@ == central_cells(r.descriptor_128@)
    &&& is_compact_of(r.compact, r.descriptor_128@, r.central_descriptor_32@)
}

/// The descriptor window exists in 32-bit arithmetic.
pub open spec fn descriptor_window_defined(candidate: RefinedExtremum, scale_q16: i32) -> bool {
    &&& 0 <= descriptor_radius(scale_q16)
    &&& -0x7fff_ffaf <= (candidate.x as i32)
    &&& -0x7fff_ffaf <= (candidate.y as i32)
}

/// Three times a nonzero 32-bit value is nonzero in 32 bits.
proof fn lemma_tripled_scale_nonzero(scale_q16: i32)
    requires
        scale_q16 > 0,
    ensures
        tripled_scale(scale_q16) != 0,
{
}

/// Adds one sample of the window to the padded histogram.
fn add_window_sample(
    histogram: &mut [u32; 288],
    magnitude: i32,
    angle: u16,
    weight: u32,
    rotated_x: i32,
    rotated_y: i32,
    orientation_q12: u16,
    f: Ghost<DescriptorField>,
    dx: Ghost<int>,
    dy: Ghost<int>,
)
    requires
        magnitude == f@.magnitude[f@.pixel(dx@, dy@)],
        angle == f@.angle[f@.pixel(dx@, dy@)],
        weight == orientation::spatial_weight(
            f@.gaussian_arg,
            arith::abs(dx@),
            arith::abs(dy@),
        ),
        rotated_x == f@.rotated_x(dx@, dy@),
        rotated_y == f@.rotated_y(dx@, dy@),
        orientation_q12 == f@.orientation,
        orientation_q12 < GF3258_PI_Q12,
    ensures
        final(histogram)@ == f@.add_sample(old(histogram)@, dx@, dy@),
{
    let limit: i32 = GF3258_DESCRIPTOR_COORD_LIMIT_Q9;
    if rotated_x > limit || rotated_x < -limit || rotated_y > limit || rotated_y < -limit {
        return ;
    }
    let product: i32 = (weight as i32).wrapping_mul(magnitude);
    proof {
        arith::lemma_i64_shr_fixed(product as i64);
    }
    let weighted: u32 = (product >> 9u32) as u32;
    let mut relative: i32 = GF3258_PI_Q12 - (angle as i16) as i32 - orientation_q12 as i32;
    let ghost unreduced = relative as int;
    while relative < 0
        invariant
            -0x1_0000 <= relative <= 0x1_0000,
            relative as int % GF3258_TAU_Q12 as int == unreduced % GF3258_TAU_Q12 as int,
        decreases 0x1_0000 - relative,
    {
        proof {
            vstd::arithmetic::div_mod::lemma_mod_add_multiples_vanish(
                relative as int,
                GF3258_TAU_Q12 as int,
            );
        }
        relative = relative + GF3258_TAU_Q12;
    }
    while relative > GF3258_TAU_Q12 - 1
        invariant
            0 <= relative <= 0x1_0000,
            relative as int % GF3258_TAU_Q12 as int == unreduced % GF3258_TAU_Q12 as int,
        decreases relative,
    {
        proof {
            vstd::arithmetic::div_mod::lemma_mod_sub_multiples_vanish(
                relative as int,
                GF3258_TAU_Q12 as int,
            );
        }
        relative = relative - GF3258_TAU_Q12;
    }
    proof {
        vstd::arithmetic::div_mod::lemma_small_mod(relative as nat, GF3258_TAU_Q12 as nat);
    }
    let spatial_x: i32 = rotated_x + GF3258_DESCRIPTOR_COORD_BIAS_Q9;
    let spatial_y: i32 = rotated_y + GF3258_DESCRIPTOR_COORD_BIAS_Q9;
    proof {
        arith::lemma_i64_shr_fixed(spatial_x as i64);
        arith::lemma_i64_shr_fixed(spatial_y as i64);
    }
    let cell_x: i32 = spatial_x >> 9u32;
    let cell_y: i32 = spatial_y >> 9u32;
    let frac_x: u32 = (spatial_x - cell_x * 512) as u32;
    let frac_y: u32 = (spatial_y - cell_y * 512) as u32;
    let cell: usize = ((cell_y + 1) * 6 + cell_x + 1) as usize;
    let turn: i32 = relative * GF3258_DESCRIPTOR_ANGLE_MAGIC;
    let bin0: usize = (turn / 0x1000_0000) as usize;
    let bin1: usize = (bin0 + 1) % 8;
    let frac: u32 = ((turn / 65536) % 4096) as u32;
    let y1: u32 = weighted.wrapping_mul(frac_y) / 512;
    let y0: u32 = weighted.wrapping_sub(y1);
    let y1_x1: u32 = y1.wrapping_mul(frac_x) / 512;
    let y1_x0: u32 = y1.wrapping_sub(y1_x1);
    let y0_x1: u32 = y0.wrapping_mul(frac_x) / 512;
    let y0_x0: u32 = y0.wrapping_sub(y0_x1);
    add_descriptor_vote(histogram, cell, bin0, bin1, y0_x0, frac);
    add_descriptor_vote(histogram, cell + 1, bin0, bin1, y0_x1, frac);
    add_descriptor_vote(histogram, cell + 6, bin0, bin1, y1_x0, frac);
    add_descriptor_vote(histogram, cell + 7, bin0, bin1, y1_x1, frac);
}

/// Accumulates the padded histogram over a window.
fn accumulate_votes(
    magnitude_map_i32: &[i32],
    angle_map_u16: &[u16],
    x: i32,
    y: i32,
    radius: i32,
    gaussian_arg: u32,
    cos_step: i32,
    sin_step: i32,
    orientation_q12: u16,
    window: Gf3258DescriptorWindow,
) -> (padded: [u32; 288])
    requires
        magnitude_map_i32@.len() == GF3258_PIXELS,
        angle_map_u16@.len() == GF3258_PIXELS,
        0 <= radius <= 32,
        -0x7fff_ffaf <= x,
        -0x7fff_ffaf <= y,
        -0x20_0000 <= cos_step <= 0x20_0000,
        -0x20_0000 <= sin_step <= 0x20_0000,
        orientation_q12 < GF3258_PI_Q12,
        window == descriptor_window(x as int, y as int, radius as int),
    ensures
        padded@ == (DescriptorField {
            magnitude: magnitude_map_i32@,
            angle: angle_map_u16@,
            x: x as int,
            y: y as int,
            gaussian_arg,
            cos_step: cos_step as int,
            sin_step: sin_step as int,
            orientation: orientation_q12 as int,
        }).add_rows(
            Seq::new(288, |i: int| 0u32),
            window.y_min_offset as int,
            window.y_max_offset as int,
            window.x_min_offset as int,
            window.x_max_offset as int,
        ),
{
    let ghost f = DescriptorField {
        magnitude: magnitude_map_i32@,
        angle: angle_map_u16@,
        x: x as int,
        y: y as int,
        gaussian_arg,
        cos_step: cos_step as int,
        sin_step: sin_step as int,
        orientation: orientation_q12 as int,
    };
    let weights: Vec<Vec<u32>> = orientation::gaussian_spatial_weight_table(
        radius as usize,
        gaussian_arg,
    );
    let mut padded: [u32; 288] = [0u32;288];
    let ghost zero = Seq::new(288, |i: int| 0u32);
    proof {
        assert(padded@ =~= zero);
    }
    let ghost x_min = window.x_min_offset as int;
    let ghost x_max = window.x_max_offset as int;
    let ghost y_min = window.y_min_offset as int;
    let mut dy: i32 = window.y_min_offset;
    while dy <= window.y_max_offset
        invariant
            magnitude_map_i32@.len() == GF3258_PIXELS,
            angle_map_u16@.len() == GF3258_PIXELS,
            0 <= radius <= 32,
            -0x7fff_ffaf <= x,
            -0x7fff_ffaf <= y,
            -0x20_0000 <= cos_step <= 0x20_0000,
            -0x20_0000 <= sin_step <= 0x20_0000,
            orientation_q12 < GF3258_PI_Q12,
            window == descriptor_window(x as int, y as int, radius as int),
            orientation::is_weight_table(weights@, radius as int, gaussian_arg),
            f == (DescriptorField {
                magnitude: magnitude_map_i32@,
                angle: angle_map_u16@,
                x: x as int,
                y: y as int,
                gaussian_arg,
                cos_step: cos_step as int,
                sin_step: sin_step as int,
                orientation: orientation_q12 as int,
            }),
            x_min == window.x_min_offset,
            x_max == window.x_max_offset,
            y_min == window.y_min_offset,
            y_min <= dy,
            y_min <= window.y_max_offset ==> dy <= window.y_max_offset + 1,
            y_min > window.y_max_offset ==> dy == y_min,
            padded@ == f.add_rows(zero, y_min, dy - 1, x_min, x_max),
        decreases window.y_max_offset + 1 - dy,
    {
        let ghost row_start = padded@;
        let mut dx: i32 = window.x_min_offset;
        while dx <= window.x_max_offset
            invariant
                magnitude_map_i32@.len() == GF3258_PIXELS,
                angle_map_u16@.len() == GF3258_PIXELS,
                0 <= radius <= 32,
                -0x7fff_ffaf <= x,
                -0x7fff_ffaf <= y,
                -0x20_0000 <= cos_step <= 0x20_0000,
                -0x20_0000 <= sin_step <= 0x20_0000,
                orientation_q12 < GF3258_PI_Q12,
                window == descriptor_window(x as int, y as int, radius as int),
                orientation::is_weight_table(weights@, radius as int, gaussian_arg),
                f == (DescriptorField {
                    magnitude: magnitude_map_i32@,
                    angle: angle_map_u16@,
                    x: x as int,
                    y: y as int,
                    gaussian_arg,
                    cos_step: cos_step as int,
                    sin_step: sin_step as int,
                    orientation: orientation_q12 as int,
                }),
                x_min == window.x_min_offset,
                x_max == window.x_max_offset,
                window.y_min_offset <= dy <= window.y_max_offset,
                x_min <= dx,
                x_min <= x_max ==> dx <= x_max + 1,
                x_min > x_max ==> dx == x_min,
                padded@ == f.add_row(row_start, dy as int, x_min, dx - 1),
            decreases window.x_max_offset + 1 - dx,
        {
            let ay: usize = if dy < 0 {
                (-dy) as usize
            } else {
                dy as usize
            };
            let ax: usize = if dx < 0 {
                (-dx) as usize
            } else {
                dx as usize
            };
            let pixel: usize = (y + dy) as usize * GF3258_WIDTH + (x + dx) as usize;
            proof {
                assert(weights@[ay as int]@[ax as int] == orientation::spatial_weight(
                    gaussian_arg,
                    ax as int,
                    ay as int,
                ));
                arith::lemma_mul_bound(cos_step as int, dx as int, 0x20_0000, 32);
                arith::lemma_mul_bound(sin_step as int, dy as int, 0x20_0000, 32);
                arith::lemma_mul_bound(sin_step as int, dx as int, 0x20_0000, 32);
                arith::lemma_mul_bound(cos_step as int, dy as int, 0x20_0000, 32);
            }
            let rotated_x: i32 = cos_step * dx - sin_step * dy;
            let rotated_y: i32 = sin_step * dx + cos_step * dy;
            add_window_sample(
                &mut padded,
                magnitude_map_i32[pixel],
                angle_map_u16[pixel],
                weights[ay][ax],
                rotated_x,
                rotated_y,
                orientation_q12,
                Ghost(f),
                Ghost(dx as int),
                Ghost(dy as int),
            );
            dx = dx + 1;
        }
        proof {
            if x_min > x_max {
                assert(f.add_row(row_start, dy as int, x_min, x_max) == row_start);
            }
        }
        dy = dy + 1;
    }
    proof {
        if y_min > window.y_max_offset {
            assert(f.add_rows(zero, y_min, window.y_max_offset as int, x_min, x_max) == zero);
        }
    }
    padded
}

/// Copies the inner 4x4 cells out of the padded histogram.
fn copy_inner_cells(padded: &[u32; 288]) -> (out: [u32; 128])
    ensures
        out@ == inner_cells(padded@),
{
    let mut out: [u32; 128] = [0u32;128];
    for i in 0..128usize
        invariant
            forall|j: int| 0 <= j < i ==> out@[j] == inner_cells(padded@)[j],
    {
        out[i] = padded[((i / 32 + 1) * 6 + (i / 8) % 4 + 1) * 8 + i % 8];
    }
    proof {
        assert(out@ =~= inner_cells(padded@));
    }
    out
}

/// Copies the central 2x2 cells out of the descriptor.
pub fn gf3258_central_cells(descriptor: &[u32; 128]) -> (out: [u32; 32])
    ensures
        out@ == central_cells(descriptor@),
{
    let mut out: [u32; 32] = [0u32;32];
    for i in 0..32usize
        invariant
            forall|j: int| 0 <= j < i ==> out@[j] == central_cells(descriptor@)[j],
    {
        out[i] = descriptor[(5 + (i / 8) % 2 + (i / 16) * 4) * 8 + i % 8];
    }
    proof {
        assert(out@ =~= central_cells(descriptor@));
    }
    out
}

/// A Q14 rotation component scaled to a Q9 step per pixel.
fn scaled_step(component_q14: i32, inverse_scale: i32) -> (step: i32)
    requires
        -0x5000 <= component_q14 <= 0x5000,
    ensures
        step == (component_q14 * inverse_scale) / 0x200_0000,
        -0x20_0000 <= step <= 0x20_0000,
{
    proof {
        arith::lemma_mul_bound(component_q14 as int, inverse_scale as int, 0x5000, 0x8000_0000);
    }
    let product: i64 = component_q14 as i64 * inverse_scale as i64;
    proof {
        vstd::arithmetic::power2::lemma2_to64();
        arith::lemma_i64_shr(product, 25);
    }
    (product >> 25u64) as i32
}

/// Builds the oriented descriptor of a candidate from the magnitude and angle
/// planes, at the scale of the sensor profile.
pub fn gf3258_primary_descriptor(
    candidate: &RefinedExtremum,
    orientation_q12: u16,
    descriptor_scale_q16: i32,
    magnitude_map_i32: &[i32],
    angle_map_u16: &[u16],
) -> (result: Result<Gf3258DescriptorResult, Gf3258DescriptorError>)
    requires
        magnitude_map_i32@.len() == GF3258_PIXELS && angle_map_u16@.len() == GF3258_PIXELS
            && descriptor_scale_q16 > 0 && orientation_q12 < GF3258_PI_Q12
            ==> descriptor_window_defined(*candidate, descriptor_scale_q16),
    ensures
        magnitude_map_i32@.len() != GF3258_PIXELS ==> result == Err::<
            Gf3258DescriptorResult,
            Gf3258DescriptorError,
        >(
            Gf3258DescriptorError::UnexpectedMapCount {
                map: "i32 magnitude",
                expected: GF3258_PIXELS,
                actual: magnitude_map_i32@.len() as usize,
            },
        ),
        magnitude_map_i32@.len() == GF3258_PIXELS && angle_map_u16@.len() != GF3258_PIXELS
            ==> result == Err::<Gf3258DescriptorResult, Gf3258DescriptorError>(
            Gf3258DescriptorError::UnexpectedMapCount {
                map: "u16 angle",
                expected: GF3258_PIXELS,
                actual: angle_map_u16@.len() as usize,
            },
        ),
        magnitude_map_i32@.len() == GF3258_PIXELS && angle_map_u16@.len() == GF3258_PIXELS
            && descriptor_scale_q16 <= 0 ==> result == Err::<
            Gf3258DescriptorResult,
            Gf3258DescriptorError,
        >(Gf3258DescriptorError::InvalidScale(descriptor_scale_q16)),
        magnitude_map_i32@.len() == GF3258_PIXELS && angle_map_u16@.len() == GF3258_PIXELS
            && descriptor_scale_q16 > 0 && orientation_q12 >= GF3258_PI_Q12 ==> result == Err::<
            Gf3258DescriptorResult,
            Gf3258DescriptorError,
        >(Gf3258DescriptorError::InvalidOrientation(orientation_q12)),
        magnitude_map_i32@.len() == GF3258_PIXELS && angle_map_u16@.len() == GF3258_PIXELS
            && descriptor_scale_q16 > 0 && orientation_q12 < GF3258_PI_Q12 ==> result is Ok
            && is_descriptor_of(
            result->Ok_0,
            *candidate,
            orientation_q12,
            descriptor_scale_q16,
            magnitude_map_i32@,
            angle_map_u16@,
        ),
{
    if magnitude_map_i32.len() != GF3258_PIXELS {
        return Err(
            Gf3258DescriptorError::UnexpectedMapCount {
                map: "i32 magnitude",
                expected: GF3258_PIXELS,
                actual: magnitude_map_i32.len(),
            },
        );
    }
    if angle_map_u16.len() != GF3258_PIXELS {
        return Err(
            Gf3258DescriptorError::UnexpectedMapCount {
                map: "u16 angle",
                expected: GF3258_PIXELS,
                actual: angle_map_u16.len(),
            },
        );
    }
    if descriptor_scale_q16 <= 0 {
        return Err(Gf3258DescriptorError::InvalidScale(descriptor_scale_q16));
    }
    if orientation_q12 as i32 >= GF3258_PI_Q12 {
        return Err(Gf3258DescriptorError::InvalidOrientation(orientation_q12));
    }
    let x: i32 = candidate.x as i32;
    let y: i32 = candidate.y as i32;
    let scale3: i32 = descriptor_scale_q16.wrapping_mul(3);
    proof {
        lemma_tripled_scale_nonzero(descriptor_scale_q16);
        arith::lemma_mul_bound(scale3 as int, scale3 as int, 0x8000_0000, 0x8000_0000);
        assert(scale3 * scale3 > 0) by (nonlinear_arith)
            requires
                scale3 != 0,
        ;
    }
    let rounded: i64 = (scale3 as i64 * GF3258_DESCRIPTOR_RADIUS_MAGIC + 0x8000_0000)
        / 0x1_0000_0000;
    let radius: i32 = if rounded > GF3258_DESCRIPTOR_RADIUS_MAX as i64 {
        GF3258_DESCRIPTOR_RADIUS_MAX
    } else {
        rounded as i32
    };
    let (sin_q14, cos_q14): (i32, i32) = orientation::gf3258_cordic_sin_cos_q14(orientation_q12);
    let scale3_sq: i64 = scale3 as i64 * scale3 as i64;
    proof {
        arith::lemma_trunc_div_bound(0x2000_0000_0000, scale3_sq as int);
        arith::lemma_trunc_div_bound(0x10_0000_0000, scale3 as int);
        orientation::lemma_sin_cos_bound(orientation_q12);
    }
    let gaussian_arg: i32 = (0x2000_0000_0000i64 / scale3_sq) as i32;
    let inverse_scale: i32 = (0x10_0000_0000i64 / scale3 as i64) as i32;
    let cos_step_q9: i32 = scaled_step(cos_q14, inverse_scale);
    let sin_step_q9: i32 = scaled_step(sin_q14, inverse_scale);
    let window: Gf3258DescriptorWindow = Gf3258DescriptorWindow {
        x_min_offset: if -radius > 1 - x {
            -radius
        } else {
            1 - x
        },
        x_max_offset: if radius < GF3258_WIDTH as i32 - x - 2 {
            radius
        } else {
            GF3258_WIDTH as i32 - x - 2
        },
        y_min_offset: if -radius > 1 - y {
            -radius
        } else {
            1 - y
        },
        y_max_offset: if radius < GF3258_HEIGHT as i32 - y - 2 {
            radius
        } else {
            GF3258_HEIGHT as i32 - y - 2
        },
    };
    let padded_histogram: [u32; 288] = accumulate_votes(
        magnitude_map_i32,
        angle_map_u16,
        x,
        y,
        radius,
        gaussian_arg as u32,
        cos_step_q9,
        sin_step_q9,
        orientation_q12,
        window,
    );
    let descriptor_128: [u32; 128] = copy_inner_cells(&padded_histogram);
    let central_descriptor_32: [u32; 32] = gf3258_central_cells(&descriptor_128);
    let compact: Gf3258CompactDescriptor = gf3258_compact_descriptor(
        &descriptor_128,
        &central_descriptor_32,
    );
    Ok(
        Gf3258DescriptorResult {
            radius,
            gaussian_arg,
            window,
            sin_q14,
            cos_q14,
            cos_step_q9,
            sin_step_q9,
            padded_histogram,
            descriptor_128,
            central_descriptor_32,
            compact,
        },
    )
}

impl Gf3258DescriptorError {
    pub open spec fn message_spec(&self) -> Seq<char> {
        match self {
            Gf3258DescriptorError::UnexpectedMapCount { map, expected, actual } => {
                "GF3258 descriptor "@ + map@ + " map has "@ + text::decimal(*actual as nat)
                    + " pixels; expected "@ + text::decimal(*expected as nat) + " (80x64)"@
            },
            Gf3258DescriptorError::InvalidScale(scale) => {
                "GF3258 descriptor requires a positive Q16 scale; got "@
                    + text::signed_decimal(*scale as int)
            },
            Gf3258DescriptorError::InvalidOrientation(angle) => {
                "GF3258 ridge orientation "@ + text::decimal(*angle as nat)
                    + " is outside [0, pi) Q12"@
            },
        }
    }

    /// The message of this error.
    pub fn message(&self) -> (text: String)
        ensures
            text@ == self.message_spec(),
    {
        match self {
            Gf3258DescriptorError::UnexpectedMapCount { map, expected, actual } => {
                let mut out: String = "GF3258 descriptor ".to_owned();
                out.append(map);
                out.append(" map has ");
                text::push_decimal(&mut out, *actual as u64);
                out.append(" pixels; expected ");
                text::push_decimal(&mut out, *expected as u64);
                out.append(" (80x64)");
                out
            },
            Gf3258DescriptorError::InvalidScale(scale) => {
                let mut out: String =
                    "GF3258 descriptor requires a positive Q16 scale; got ".to_owned();
                text::push_signed(&mut out, *scale);
                out
            },
            Gf3258DescriptorError::InvalidOrientation(angle) => {
                let mut out: String = "GF3258 ridge orientation ".to_owned();
                text::push_decimal(&mut out, *angle as u64);
                out.append(" is outside [0, pi) Q12");
                out
            },
        }
    }
}

} // verus!
