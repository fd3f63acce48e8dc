//! What a descriptor keeps of the patch around a point: where a sample falls, how
//! its weight is shared out, and what the hashes say of single entries.
use vstd::prelude::*;

use crate::feature::descriptor;
use crate::feature::descriptor::DescriptorField;

verus! {

/// Turning keeps lengths: the rotated coordinates of a displacement are those of a
/// rotation and a scaling. One pixel along `x` goes to `(cos, sin)`, one along `y`
/// a quarter turn further.
pub proof fn lemma_rotation(f: DescriptorField, dx: int, dy: int)
    ensures
        f.rotated_x(1, 0) == f.cos_step,
        f.rotated_y(1, 0) == f.sin_step,
        f.rotated_x(0, 1) == -f.sin_step,
        f.rotated_y(0, 1) == f.cos_step,
        f.rotated_x(dx, dy) * f.rotated_x(dx, dy) + f.rotated_y(dx, dy) * f.rotated_y(dx, dy) == (
        f.cos_step * f.cos_step + f.sin_step * f.sin_step) * (dx * dx + dy * dy),
        f.rotated_x(-dx, -dy) == -f.rotated_x(dx, dy),
        f.rotated_y(-dx, -dy) == -f.rotated_y(dx, dy),
        f.inside(dx, dy) == f.inside(-dx, -dy),
{
    let c = f.cos_step;
    let s = f.sin_step;
    assert(c * 1 == c && s * 1 == s && c * 0 == 0 && s * 0 == 0) by (nonlinear_arith);
    let cx = c * dx;
    let cy = c * dy;
    let sx = s * dx;
    let sy = s * dy;
    assert((cx - sy) * (cx - sy) == cx * cx + sy * sy - 2 * (cx * sy)) by (nonlinear_arith);
    assert((sx + cy) * (sx + cy) == sx * sx + cy * cy + 2 * (sx * cy)) by (nonlinear_arith);
    lemma_square_of_product(c, dx);
    lemma_square_of_product(c, dy);
    lemma_square_of_product(s, dx);
    lemma_square_of_product(s, dy);
    assert(cx * sy == sx * cy) by (nonlinear_arith)
        requires
            cx == c * dx,
            sy == s * dy,
            sx == s * dx,
            cy == c * dy,
    ;
    assert((c * c + s * s) * (dx * dx + dy * dy) == (c * c) * (dx * dx) + (s * s) * (dy * dy) + (s
        * s) * (dx * dx) + (c * c) * (dy * dy)) by (nonlinear_arith);
    assert(c * (-dx) == -(c * dx) && s * (-dx) == -(s * dx) && c * (-dy) == -(c * dy) && s * (-dy)
        == -(s * dy)) by (nonlinear_arith);
}

proof fn lemma_square_of_product(a: int, b: int)
    ensures
        (a * b) * (a * b) == (a * a) * (b * b),
{
    assert((a * b) * (a * b) == (a * a) * (b * b)) by (nonlinear_arith);
}

/// Angles are read against the orientation: a gradient that lies `r` short of the
/// half turn past the orientation has the relative angle `r`.
pub proof fn lemma_relative_angle(f: DescriptorField, dx: int, dy: int, r: int)
    requires
        0 <= r < 0x6488,
        (f.angle[f.pixel(dx, dy)] as i16) as int == 0x3244 - f.orientation - r || (f.angle[f.pixel(
            dx,
            dy,
        )] as i16) as int == 0x3244 - f.orientation - r + 0x6488,
    ensures
        f.relative_angle(dx, dy) == r,
{
}

/// A vote is shared in proportion: the first bin gets the complement of the
/// fraction and the second one the fraction, each to less than two units, and no
/// other entry changes.
pub proof fn lemma_vote_is_shared(
    h: Seq<u32>,
    cell: int,
    bin0: int,
    bin1: int,
    value: u32,
    frac: u32,
)
    requires
        h.len() == 288,
        0 <= cell < 36,
        0 <= bin0 < 8,
        0 <= bin1 < 8,
        bin0 != bin1,
        frac < 4096,
        value < 0x10_0000,
        h[cell * 8 + bin0] < 0x8000_0000,
        h[cell * 8 + bin1] < 0x8000_0000,
    ensures
        ({
            let after = descriptor::add_vote(h, cell, bin0, bin1, value, frac);
            let first = after[cell * 8 + bin0] - h[cell * 8 + bin0];
            let second = after[cell * 8 + bin1] - h[cell * 8 + bin1];
            &&& after.len() == 288
            &&& -131072 < 131072 * first - value * (4096 - frac) < 4096
            &&& -131072 < 131072 * second - value * frac <= 0
            &&& frac == 0 ==> first == value as int / 32 && second == 0
            &&& forall|k: int|
                0 <= k < 288 && k != cell * 8 + bin0 && k != cell * 8 + bin1
                    ==> #[trigger] after[k] == h[k]
        }),
{
    let product = value * frac;
    assert(0 <= product < 0x1_0000_0000 && product <= value * 4096 && value * (4096 - frac) == value
        * 4096 - product && (frac == 0 ==> product == 0)) by (nonlinear_arith)
        requires
            product == value * frac,
            0 <= frac < 4096,
            0 <= value < 0x10_0000,
    ;
    assert(value.wrapping_mul(frac) == product);
    assert(value.wrapping_sub((product / 4096) as u32) == value - product / 4096);
}

/// The bin of a relative angle: an eighth of a turn wide, counted from zero.
pub proof fn lemma_angle_bin(rel: int)
    requires
        0 <= rel < 0x6488,
    ensures
        ({
            let bin = rel * descriptor::GF3258_DESCRIPTOR_ANGLE_MAGIC / 0x1000_0000;
            &&& 0 <= bin < 8
            &&& bin * 3217 <= rel < (bin + 1) * 3217
            &&& 8 * 3217 == 0x6488
        }),
{
}

/// Row, column and bin of a descriptor entry, inside a border of one cell.
pub proof fn lemma_cells_are_inside(padded: Seq<u32>, row: int, column: int, bin: int)
    requires
        0 <= row < 4,
        0 <= column < 4,
        0 <= bin < 8,
    ensures
        descriptor::inner_cells(padded)[row * 32 + column * 8 + bin] == padded[(row + 1) * 48 + (
        column + 1) * 8 + bin],
        1 <= row <= 2 && 1 <= column <= 2 ==> descriptor::central_cells(
            descriptor::inner_cells(padded),
        )[(row - 1) * 16 + (column - 1) * 8 + bin] == padded[(row + 1) * 48 + (column + 1) * 8
            + bin],
{
    let i = row * 32 + column * 8 + bin;
    lemma_inner_position(row, column, bin);
    assert(0 <= i < 128);
    if 1 <= row <= 2 && 1 <= column <= 2 {
        let k = (row - 1) * 16 + (column - 1) * 8 + bin;
        lemma_central_position(row - 1, column - 1, bin);
        assert(0 <= k < 32);
    }
}

proof fn lemma_inner_position(row: int, column: int, bin: int)
    requires
        0 <= row < 4,
        0 <= column < 4,
        0 <= bin < 8,
    ensures
        descriptor::padded_position(row * 32 + column * 8 + bin) == (row + 1) * 48 + (column + 1) * 8
            + bin,
{
    let i = row * 32 + column * 8 + bin;
    assert(i / 32 == row);
    assert(i / 8 == row * 4 + column);
    assert(i % 8 == bin);
}

proof fn lemma_central_position(row: int, column: int, bin: int)
    requires
        0 <= row < 2,
        0 <= column < 2,
        0 <= bin < 8,
    ensures
        descriptor::central_position(row * 16 + column * 8 + bin) == (row + 1) * 32 + (column + 1) * 8
            + bin,
{
    let i = row * 16 + column * 8 + bin;
    assert(i / 16 == row);
    assert(i / 8 == row * 2 + column);
    assert(i % 8 == bin);
}

/// Normalizing keeps the order of the entries, takes the square root of those under
/// a fifth of the norm, and lets none be larger than the root of that fifth.
pub proof fn lemma_normalized(raw: Seq<u32>, i: int, j: int)
    requires
        0 <= i < raw.len(),
        0 <= j < raw.len(),
    ensures
        ({
            let out = descriptor::normalized(raw);
            let norm = descriptor::vector_norm(raw);
            &&& out.len() == raw.len()
            &&& raw[i] <= raw[j] ==> out[i] <= out[j]
            &&& out[i] * out[i] <= raw[i]
            &&& 5 * (out[i] * out[i]) <= norm
            &&& 5 * (raw[i] + 1) <= norm - norm / 65536 - 5 ==> raw[i] < (out[i] + 1) * (out[i] + 1)
            &&& 5 * raw[i] >= norm ==> norm - norm / 65536 - 10 < 5 * ((out[i] + 1) * (out[i] + 1))
        }),
{
    let total = descriptor::sum_of_squares(raw, raw.len()) % 0x1_0000_0000_0000_0000;
    lemma_root_exists(total);
    let norm = descriptor::vector_norm(raw);
    assert(0 <= norm <= 0xffff_ffff) by (nonlinear_arith)
        requires
            0 <= norm,
            norm * norm <= total,
            total < 0x1_0000_0000_0000_0000,
    ;
    let clip = descriptor::clip_level(raw);
    lemma_root_exists(clip);
    lemma_root_exists(raw[i] as int);
    lemma_root_exists(raw[j] as int);
    lemma_root_fits(clip);
    lemma_root_fits(raw[i] as int);
    lemma_root_fits(raw[j] as int);
    lemma_root_ordered(clip, raw[i] as int);
    lemma_root_ordered(raw[i] as int, clip);
    lemma_root_ordered(raw[i] as int, raw[j] as int);
}

proof fn lemma_root_fits(value: int)
    requires
        0 <= value <= 0xffff_ffff,
        descriptor::is_floor_sqrt(descriptor::floor_sqrt(value), value),
    ensures
        0 <= descriptor::floor_sqrt(value) <= 0xffff,
{
    let r = descriptor::floor_sqrt(value);
    assert(r <= 0xffff) by (nonlinear_arith)
        requires
            0 <= r,
            r * r <= value,
            value <= 0xffff_ffff,
    ;
}

proof fn lemma_root_ordered(low: int, high: int)
    requires
        descriptor::is_floor_sqrt(descriptor::floor_sqrt(low), low),
        descriptor::is_floor_sqrt(descriptor::floor_sqrt(high), high),
    ensures
        low <= high ==> descriptor::floor_sqrt(low) <= descriptor::floor_sqrt(high),
{
    let a = descriptor::floor_sqrt(low);
    let b = descriptor::floor_sqrt(high);
    if low <= high && a > b {
        assert((b + 1) * (b + 1) <= a * a) by (nonlinear_arith)
            requires
                0 <= b,
                b + 1 <= a,
        ;
    }
}

proof fn lemma_root_exists(value: int)
    requires
        0 <= value,
    ensures
        descriptor::is_floor_sqrt(descriptor::floor_sqrt(value), value),
    decreases value,
{
    if value == 0 {
        assert(descriptor::is_floor_sqrt(0, 0));
    } else {
        lemma_root_exists(value - 1);
        let r = descriptor::floor_sqrt(value - 1);
        if value < (r + 1) * (r + 1) {
            assert(descriptor::is_floor_sqrt(r, value));
        } else {
            assert((r + 1) * (r + 1) < (r + 2) * (r + 2)) by (nonlinear_arith)
                requires
                    0 <= r,
            ;
            assert(descriptor::is_floor_sqrt(r + 1, value));
        }
    }
}

proof fn lemma_sign_splits(high: nat, low: nat, column_high: nat, column_low: nat)
    requires
        low < 32,
        column_low < 32,
    ensures
        descriptor::hadamard_negative(high * 32 + low, column_high * 32 + column_low) == (
        descriptor::hadamard_negative(high, column_high) != descriptor::hadamard_negative(
            low,
            column_low,
        )),
{
    lemma_sign_splits_at(high, low, column_high, column_low, 32);
}

/// The signs of the high and the low binary digits of row and column multiply.
proof fn lemma_sign_splits_at(high: nat, low: nat, column_high: nat, column_low: nat, m: nat)
    requires
        m == 1 || m == 2 || m == 4 || m == 8 || m == 16 || m == 32,
        low < m,
        column_low < m,
    ensures
        descriptor::hadamard_negative(high * m + low, column_high * m + column_low) == (
        descriptor::hadamard_negative(high, column_high) != descriptor::hadamard_negative(
            low,
            column_low,
        )),
    decreases m,
{
    if m == 1 {
        assert(high * m == high && column_high * m == column_high);
        lemma_sign_step(0, 0, 0, 0);
    } else {
        let half = m / 2;
        lemma_sign_splits_at(high, low / 2, column_high, column_low / 2, half);
        lemma_sign_step(
            high * half + low / 2,
            low % 2,
            column_high * half + column_low / 2,
            column_low % 2,
        );
        lemma_sign_step(low / 2, low % 2, column_low / 2, column_low % 2);
        lemma_twice(high, half);
        lemma_twice(column_high, half);
        assert((high * half + low / 2) * 2 + low % 2 == high * m + low);
        assert((column_high * half + column_low / 2) * 2 + column_low % 2 == column_high * m
            + column_low);
    }
}

proof fn lemma_twice(a: nat, half: nat)
    ensures
        a * (half * 2) == (a * half) * 2,
{
    assert(a * (half * 2) == (a * half) * 2) by (nonlinear_arith);
}

/// One binary digit of row and column: the sign turns when both digits are one.
pub proof fn lemma_sign_step(row: nat, row_digit: nat, column: nat, column_digit: nat)
    requires
        row_digit < 2,
        column_digit < 2,
    ensures
        descriptor::hadamard_negative(row * 2 + row_digit, column * 2 + column_digit) == (
        descriptor::hadamard_negative(row, column) != (row_digit == 1 && column_digit == 1)),
        !descriptor::hadamard_negative(0, column),
        !descriptor::hadamard_negative(row, 0),
{
    assert((row * 2 + row_digit) / 2 == row && (row * 2 + row_digit) % 2 == row_digit);
    assert((column * 2 + column_digit) / 2 == column && (column * 2 + column_digit) % 2
        == column_digit);
}

/// A vector with a single entry.
pub open spec fn is_impulse(values: Seq<u16>, column: int, size: u16) -> bool {
    &&& 0 <= column < values.len()
    &&& 0 < size < 0x8000
    &&& forall|k: int|
        0 <= k < values.len() ==> #[trigger] values[k] == (if k == column {
            size
        } else {
            0u16
        })
}

proof fn lemma_impulse_sum(values: Seq<u16>, column: int, size: u16, row: int, start: int, n: nat)
    requires
        is_impulse(values, column, size),
        0 <= start,
        start + n <= values.len(),
    ensures
        descriptor::signed_sum(values, row, start, n) == (if start <= column < start + n {
            descriptor::signed_entry(values, row, column) as int
        } else {
            0int
        }),
    decreases n,
{
    if n > 0 {
        lemma_impulse_sum(values, column, size, row, start, (n - 1) as nat);
    }
}

proof fn lemma_central_impulse_sum(values: Seq<u16>, column: int, size: u16, row: int, n: nat)
    requires
        is_impulse(values, column, size),
        n <= values.len(),
    ensures
        descriptor::central_sum(values, row, n) == (if column >= n {
            0int
        } else if descriptor::hadamard_negative(row as nat, column as nat) {
            -size
        } else {
            size as int
        }),
    decreases n,
{
    if n > 0 {
        lemma_central_impulse_sum(values, column, size, row, (n - 1) as nat);
        assert(size < 0x8000 ==> (size as i16) as int == size) by (bit_vector);
        assert((0u16 as i16) as int == 0) by (bit_vector);
        assert(values[n - 1] == (if n - 1 == column { size } else { 0u16 }));
    }
}

/// A quarter sum of an impulse is plus or minus its size in the quarter that holds
/// it, and zero elsewhere.
proof fn lemma_impulse_quarter(values: Seq<u16>, column: int, size: u16, row: int, start: int)
    requires
        is_impulse(values, column, size),
        values.len() == 128,
        0 <= start <= 96,
        start % 32 == 0,
        0 <= row < 32,
    ensures
        descriptor::quarter_sum(values, row, start) == (if !(start <= column < start + 32) {
            0int
        } else if descriptor::hadamard_negative(row as nat, (column % 32) as nat) {
            -size
        } else {
            size as int
        }),
{
    lemma_impulse_sum(values, column, size, row, start, 32);
    assert(values[column] == size);
    assert(0 < size < 0x8000 ==> (size as i16) as int == size && ((0x10000 - size) as u16 as i16)
        as int == -size) by (bit_vector);
    assert((0u16 as i16) as int == 0) by (bit_vector);
    lemma_sign_splits(0, row as nat, (column / 32) as nat, (column % 32) as nat);
}

/// The transform read off a single entry: the flag of a row is set exactly where
/// the row and the column share an even number of binary ones, for all 128 rows, of
/// which word `w` holds those from `32 w` on, and for the 32 of the central vector.
pub proof fn lemma_transform_of_impulse(values: Seq<u16>, column: int, size: u16, row: u32)
    requires
        is_impulse(values, column, size),
        row < values.len(),
        values.len() == 128 || values.len() == 32,
    ensures
        values.len() == 128 ==> (descriptor::hadamard_word(values, row as int / 32) >> ((row % 32)
            as u32)) & 1u32 == (if descriptor::hadamard_negative(row as nat, column as nat) {
            0u32
        } else {
            1u32
        }),
        values.len() == 32 ==> (descriptor::packed(descriptor::central_bits(values), 32) >> row)
            & 1u32 == (if descriptor::hadamard_negative(row as nat, column as nat) {
            0u32
        } else {
            1u32
        }),
{
    if values.len() == 128 {
        let word = row as int / 32;
        let bit = (row % 32) as int;
        lemma_impulse_quarter(values, column, size, bit, 0);
        lemma_impulse_quarter(values, column, size, bit, 32);
        lemma_impulse_quarter(values, column, size, bit, 64);
        lemma_impulse_quarter(values, column, size, bit, 96);
        lemma_sign_splits(word as nat, bit as nat, (column / 32) as nat, (column % 32) as nat);
        lemma_small_signs(word as nat, (column / 32) as nat);
        assert(row as nat == word as nat * 32 + bit as nat);
        assert(column as nat == (column / 32) as nat * 32 + (column % 32) as nat);
        descriptor::lemma_packed_bit(descriptor::hadamard_bits(values, word), 32, (row % 32) as u32);
        lemma_flag(descriptor::hadamard_word(values, word), (row % 32) as u32);
    } else {
        lemma_central_impulse_sum(values, column, size, row as int, 32);
        descriptor::lemma_packed_bit(descriptor::central_bits(values), 32, row);
        lemma_flag(descriptor::packed(descriptor::central_bits(values), 32), row);
    }
}

proof fn lemma_flag(word: u32, bit: u32)
    requires
        bit < 32,
    ensures
        (word >> bit) & 1u32 == 0u32 || (word >> bit) & 1u32 == 1u32,
{
    assert((word >> bit) & 1u32 == 0u32 || (word >> bit) & 1u32 == 1u32) by (bit_vector);
}

proof fn lemma_small_signs(row: nat, column: nat)
    requires
        row < 4,
        column < 4,
    ensures
        descriptor::hadamard_negative(row, column) == ((row % 2 == 1 && column % 2 == 1) != (row / 2
            == 1 && column / 2 == 1)),
{
    lemma_sign_step(row / 2, row % 2, column / 2, column % 2);
    lemma_sign_step(0, row / 2, 0, column / 2);
}

/// The stored bytes read back as words: the four words of the transform, the median
/// hash, a word of zeros and the two central hashes.
pub proof fn lemma_point_bytes(c: descriptor::Gf3258CompactDescriptor)
    ensures
        ({
            let b = c.point_bytes();
            &&& b.len() == 32
            &&& forall|w: int|
                0 <= w < 4 ==> #[trigger] c.hadamard_128_words@[w] == b[4 * w] + 256 * b[4 * w + 1]
                    + 65536 * b[4 * w + 2] + 16777216 * b[4 * w + 3]
            &&& c.median_hash_128 == b[16] + 256 * b[17] + 65536 * b[18] + 16777216 * b[19]
            &&& b[20] == 0 && b[21] == 0 && b[22] == 0 && b[23] == 0
            &&& c.hadamard_hash_32 == b[24] + 256 * b[25] + 65536 * b[26] + 16777216 * b[27]
            &&& c.median_hash_32 == b[28] + 256 * b[29] + 65536 * b[30] + 16777216 * b[31]
        }),
{
    let b = c.point_bytes();
    lemma_word_at(b, c.hadamard_128_words@[0], 0);
    lemma_word_at(b, c.hadamard_128_words@[1], 4);
    lemma_word_at(b, c.hadamard_128_words@[2], 8);
    lemma_word_at(b, c.hadamard_128_words@[3], 12);
    lemma_word_at(b, c.median_hash_128, 16);
    lemma_word_at(b, 0, 20);
    lemma_word_at(b, c.hadamard_hash_32, 24);
    lemma_word_at(b, c.median_hash_32, 28);
    assert forall|w: int| 0 <= w < 4 implies #[trigger] c.hadamard_128_words@[w] == b[4 * w] + 256
        * b[4 * w + 1] + 65536 * b[4 * w + 2] + 16777216 * b[4 * w + 3] by {
        assert(w == 0 || w == 1 || w == 2 || w == 3);
    }
}

proof fn lemma_word_at(b: Seq<u8>, word: u32, at: int)
    requires
        0 <= at,
        at + 4 <= b.len(),
        b[at] == (word % 256) as u8,
        b[at + 1] == ((word / 256) % 256) as u8,
        b[at + 2] == ((word / 65536) % 256) as u8,
        b[at + 3] == (word / 16777216) as u8,
    ensures
        word == b[at] + 256 * b[at + 1] + 65536 * b[at + 2] + 16777216 * b[at + 3],
{
}

/// The four cells that a sample votes into surround it: counted from the middle of
/// the patch, whose coordinates in units of a cell lie between the second and third
/// inner row and column, and nothing outside them changes. A sample outside the
/// square changes nothing.
pub proof fn lemma_sample_votes_around_itself(
    f: DescriptorField,
    h: Seq<u32>,
    dx: int,
    dy: int,
    row: int,
    column: int,
    bin: int,
)
    requires
        h.len() == 288,
        0 <= row < 6,
        0 <= column < 6,
        0 <= bin < 8,
    ensures
        ({
            let after = f.add_sample(h, dx, dy);
            let x = f.rotated_x(dx, dy);
            let y = f.rotated_y(dx, dy);
            let k = row * 48 + column * 8 + bin;
            let off_x = x - (512 * column - 1280);
            let off_y = y - (512 * row - 1280);
            let rel = f.relative_angle(dx, dy);
            let ahead = (rel - 3217 * bin) % 0x6488;
            &&& (x > 1279 || x < -1279 || y > 1279 || y < -1279) ==> after == h
            &&& (off_x >= 512 || off_x < -512 || off_y >= 512 || off_y < -512) ==> after[k] == h[k]
            &&& 3217 <= ahead < 0x6488 - 3217 ==> after[k] == h[k]
        }),
{
    let x = f.rotated_x(dx, dy);
    let y = f.rotated_y(dx, dy);
    if f.inside(dx, dy) {
        let rel = f.relative_angle(dx, dy);
        let bin0 = rel * descriptor::GF3258_DESCRIPTOR_ANGLE_MAGIC / 0x1000_0000;
        lemma_angle_bin(rel);
        if x - (512 * column - 1280) >= 512 || x - (512 * column - 1280) < -512 {
            lemma_far_cell(x, column);
            lemma_sample_elsewhere(f, h, dx, dy, row, column, bin);
        }
        if y - (512 * row - 1280) >= 512 || y - (512 * row - 1280) < -512 {
            lemma_far_cell(y, row);
            lemma_sample_elsewhere(f, h, dx, dy, row, column, bin);
        }
        let ahead = (rel - 3217 * bin) % 0x6488;
        if 3217 <= ahead < 0x6488 - 3217 {
            lemma_bins_ahead(rel, bin, bin0);
            lemma_sample_elsewhere(f, h, dx, dy, row, column, bin);
        }
    }
}

proof fn lemma_bins_ahead(rel: int, bin: int, bin0: int)
    requires
        0 <= rel < 0x6488,
        0 <= bin < 8,
        0 <= bin0 < 8,
        bin0 * 3217 <= rel < (bin0 + 1) * 3217,
        3217 <= (rel - 3217 * bin) % 0x6488 < 0x6488 - 3217,
    ensures
        bin != bin0,
        bin != (bin0 + 1) % 8,
{
    let r = rel - 3217 * bin0;
    if bin == bin0 {
        assert((rel - 3217 * bin) % 0x6488 == r);
    }
    if bin == (bin0 + 1) % 8 {
        assert(rel - 3217 * bin == r - 3217 || rel - 3217 * bin == r + 7 * 3217);
        assert((r - 3217) % 0x6488 == r + 7 * 3217);
    }
}

proof fn lemma_sample_elsewhere(
    f: DescriptorField,
    h: Seq<u32>,
    dx: int,
    dy: int,
    row: int,
    column: int,
    bin: int,
)
    requires
        h.len() == 288,
        0 <= row < 6,
        0 <= column < 6,
        0 <= bin < 8,
        f.inside(dx, dy),
        ({
            let column0 = (f.rotated_x(dx, dy) + 768) / 512 + 1;
            let row0 = (f.rotated_y(dx, dy) + 768) / 512 + 1;
            let bin0 = f.relative_angle(dx, dy) * descriptor::GF3258_DESCRIPTOR_ANGLE_MAGIC
                / 0x1000_0000;
            (row != row0 && row != row0 + 1) || (column != column0 && column != column0 + 1) || (bin
                != bin0 && bin != (bin0 + 1) % 8)
        }),
    ensures
        f.add_sample(h, dx, dy)[row * 48 + column * 8 + bin] == h[row * 48 + column * 8 + bin],
{
    let spatial_x = f.rotated_x(dx, dy) + 768;
    let spatial_y = f.rotated_y(dx, dy) + 768;
    let frac_x = (spatial_x % 512) as u32;
    let frac_y = (spatial_y % 512) as u32;
    let row0 = spatial_y / 512 + 1;
    let column0 = spatial_x / 512 + 1;
    let cell = (spatial_y / 512 + 1) * 6 + spatial_x / 512 + 1;
    let turn = f.relative_angle(dx, dy) * descriptor::GF3258_DESCRIPTOR_ANGLE_MAGIC;
    let bin0 = turn / 0x1000_0000;
    let bin1 = (bin0 + 1) % 8;
    let frac = ((turn / 65536) % 4096) as u32;
    let magnitude = f.weighted(dx, dy);
    let y1 = magnitude.wrapping_mul(frac_y) / 512;
    let y0 = magnitude.wrapping_sub(y1);
    let y1_x1 = y1.wrapping_mul(frac_x) / 512;
    let y1_x0 = y1.wrapping_sub(y1_x1);
    let y0_x1 = y0.wrapping_mul(frac_x) / 512;
    let y0_x0 = y0.wrapping_sub(y0_x1);
    lemma_angle_bin(f.relative_angle(dx, dy));
    lemma_first_cell(f.rotated_x(dx, dy));
    lemma_first_cell(f.rotated_y(dx, dy));
    lemma_four_votes(
        h,
        row0,
        column0,
        bin0,
        bin1,
        y0_x0,
        y0_x1,
        y1_x0,
        y1_x1,
        frac,
        row,
        column,
        bin,
    );
    assert(cell == row0 * 6 + column0);
}

/// The first of the two cells along an axis that a coordinate falls between.
proof fn lemma_first_cell(c: int)
    requires
        -1279 <= c <= 1279,
    ensures
        0 <= (c + 768) / 512 + 1 < 5,
{
}

/// A cell farther than one cell from a coordinate is not one of the two.
proof fn lemma_far_cell(c: int, cell: int)
    requires
        c - (512 * cell - 1280) >= 512 || c - (512 * cell - 1280) < -512,
    ensures
        cell != (c + 768) / 512 + 1,
        cell != (c + 768) / 512 + 2,
{
}

proof fn lemma_four_votes(
    h: Seq<u32>,
    row0: int,
    column0: int,
    bin0: int,
    bin1: int,
    first: u32,
    second: u32,
    third: u32,
    fourth: u32,
    frac: u32,
    row: int,
    column: int,
    bin: int,
)
    requires
        h.len() == 288,
        0 <= row0 < 5,
        0 <= column0 < 5,
        0 <= bin0 < 8,
        0 <= bin1 < 8,
        0 <= row < 6,
        0 <= column < 6,
        0 <= bin < 8,
        (row != row0 && row != row0 + 1) || (column != column0 && column != column0 + 1) || (bin
            != bin0 && bin != bin1),
    ensures
        ({
            let cell = row0 * 6 + column0;
            let h0 = descriptor::add_vote(h, cell, bin0, bin1, first, frac);
            let h1 = descriptor::add_vote(h0, cell + 1, bin0, bin1, second, frac);
            let h2 = descriptor::add_vote(h1, cell + 6, bin0, bin1, third, frac);
            let h3 = descriptor::add_vote(h2, cell + 7, bin0, bin1, fourth, frac);
            h3[row * 48 + column * 8 + bin] == h[row * 48 + column * 8 + bin]
        }),
{
    let cell = row0 * 6 + column0;
    let k = row * 48 + column * 8 + bin;
    let h0 = descriptor::add_vote(h, cell, bin0, bin1, first, frac);
    let h1 = descriptor::add_vote(h0, cell + 1, bin0, bin1, second, frac);
    let h2 = descriptor::add_vote(h1, cell + 6, bin0, bin1, third, frac);
    lemma_other_cell(row0, column0, bin0, bin1, row, column, bin);
    lemma_vote_elsewhere(h, cell, bin0, bin1, first, frac, k);
    lemma_vote_elsewhere(h0, cell + 1, bin0, bin1, second, frac, k);
    lemma_vote_elsewhere(h1, cell + 6, bin0, bin1, third, frac, k);
    lemma_vote_elsewhere(h2, cell + 7, bin0, bin1, fourth, frac, k);
}

proof fn lemma_vote_elsewhere(
    h: Seq<u32>,
    cell: int,
    bin0: int,
    bin1: int,
    value: u32,
    frac: u32,
    k: int,
)
    requires
        h.len() == 288,
        0 <= k < 288,
        0 <= cell < 36,
        0 <= bin0 < 8,
        0 <= bin1 < 8,
        k != cell * 8 + bin0,
        k != cell * 8 + bin1,
    ensures
        descriptor::add_vote(h, cell, bin0, bin1, value, frac).len() == 288,
        descriptor::add_vote(h, cell, bin0, bin1, value, frac)[k] == h[k],
{
}

proof fn lemma_index_unique(row: int, column: int, bin: int, row0: int, column0: int, bin0: int)
    requires
        0 <= row0 < 6,
        0 <= column0 < 6,
        0 <= bin0 < 8,
        0 <= row < 6,
        0 <= column < 6,
        0 <= bin < 8,
        row * 48 + column * 8 + bin == row0 * 48 + column0 * 8 + bin0,
    ensures
        row == row0,
        column == column0,
        bin == bin0,
{
}

proof fn lemma_other_entry(row: int, column: int, bin: int, row0: int, column0: int, bin0: int)
    requires
        0 <= row0 < 6,
        0 <= column0 < 6,
        0 <= bin0 < 8,
        0 <= row < 6,
        0 <= column < 6,
        0 <= bin < 8,
        row != row0 || column != column0 || bin != bin0,
    ensures
        row * 48 + column * 8 + bin != (row0 * 6 + column0) * 8 + bin0,
{
    if row * 48 + column * 8 + bin == (row0 * 6 + column0) * 8 + bin0 {
        lemma_index_unique(row, column, bin, row0, column0, bin0);
    }
}

proof fn lemma_other_cell(
    row0: int,
    column0: int,
    bin0: int,
    bin1: int,
    row: int,
    column: int,
    bin: int,
)
    requires
        0 <= row0 < 5,
        0 <= column0 < 5,
        0 <= bin0 < 8,
        0 <= bin1 < 8,
        0 <= row < 6,
        0 <= column < 6,
        0 <= bin < 8,
        (row != row0 && row != row0 + 1) || (column != column0 && column != column0 + 1) || (bin
            != bin0 && bin != bin1),
    ensures
        ({
            let k = row * 48 + column * 8 + bin;
            let cell = row0 * 6 + column0;
            &&& k != cell * 8 + bin0 && k != cell * 8 + bin1
            &&& k != (cell + 1) * 8 + bin0 && k != (cell + 1) * 8 + bin1
            &&& k != (cell + 6) * 8 + bin0 && k != (cell + 6) * 8 + bin1
            &&& k != (cell + 7) * 8 + bin0 && k != (cell + 7) * 8 + bin1
        }),
{
    lemma_other_entry(row, column, bin, row0, column0, bin0);
    lemma_other_entry(row, column, bin, row0, column0, bin1);
    lemma_other_entry(row, column, bin, row0, column0 + 1, bin0);
    lemma_other_entry(row, column, bin, row0, column0 + 1, bin1);
    lemma_other_entry(row, column, bin, row0 + 1, column0, bin0);
    lemma_other_entry(row, column, bin, row0 + 1, column0, bin1);
    lemma_other_entry(row, column, bin, row0 + 1, column0 + 1, bin0);
    lemma_other_entry(row, column, bin, row0 + 1, column0 + 1, bin1);
}

/// The weight of a sample is shared over the cells around it in proportion to how
/// near they are along both axes: where the relative angle is that of a bin, a cell
/// at the distances `ax` and `ay` from the sample, in units of `1/512` of a cell,
/// gains a 32nd of `weight * (1 - ax) * (1 - ay)`, rounded by less than two units.
pub proof fn lemma_sample_is_shared(
    f: DescriptorField,
    h: Seq<u32>,
    dx: int,
    dy: int,
    row: int,
    column: int,
    bin: int,
)
    requires
        h.len() == 288,
        0 <= row < 6,
        0 <= column < 6,
        0 <= bin < 8,
        f.inside(dx, dy),
        f.relative_angle(dx, dy) == 3217 * bin,
        f.weighted(dx, dy) < 0x10_0000,
        h[row * 48 + column * 8 + bin] < 0x8000_0000,
        -512 <= f.rotated_x(dx, dy) - (512 * column - 1280) < 512,
        -512 <= f.rotated_y(dx, dy) - (512 * row - 1280) < 512,
    ensures
        ({
            let k = row * 48 + column * 8 + bin;
            let off_x = f.rotated_x(dx, dy) - (512 * column - 1280);
            let off_y = f.rotated_y(dx, dy) - (512 * row - 1280);
            let ax = if off_x < 0 {
                -off_x
            } else {
                off_x
            };
            let ay = if off_y < 0 {
                -off_y
            } else {
                off_y
            };
            let gain = f.add_sample(h, dx, dy)[k] - h[k];
            let share = f.weighted(dx, dy) * (512 - ay) * (512 - ax);
            -0x88_0000 < 0x80_0000 * gain - share < 0x88_0000
        }),
{
    let spatial_x = f.rotated_x(dx, dy) + 768;
    let spatial_y = f.rotated_y(dx, dy) + 768;
    let frac_x = (spatial_x % 512) as u32;
    let frac_y = (spatial_y % 512) as u32;
    let row0 = spatial_y / 512 + 1;
    let column0 = spatial_x / 512 + 1;
    let turn = f.relative_angle(dx, dy) * descriptor::GF3258_DESCRIPTOR_ANGLE_MAGIC;
    let bin0 = turn / 0x1000_0000;
    let frac = ((turn / 65536) % 4096) as u32;
    let magnitude = f.weighted(dx, dy);
    let y1 = magnitude.wrapping_mul(frac_y) / 512;
    let y0 = magnitude.wrapping_sub(y1);
    let y1_x1 = y1.wrapping_mul(frac_x) / 512;
    let y1_x0 = y1.wrapping_sub(y1_x1);
    let y0_x1 = y0.wrapping_mul(frac_x) / 512;
    let y0_x0 = y0.wrapping_sub(y0_x1);
    lemma_on_bin(bin);
    lemma_first_cell(f.rotated_x(dx, dy));
    lemma_first_cell(f.rotated_y(dx, dy));
    lemma_near_cell(f.rotated_x(dx, dy), column);
    lemma_near_cell(f.rotated_y(dx, dy), row);
    lemma_split(magnitude, frac_y);
    lemma_split(y1, frac_x);
    lemma_split(y0, frac_x);
    let value = if row == row0 {
        if column == column0 {
            y0_x0
        } else {
            y0_x1
        }
    } else {
        if column == column0 {
            y1_x0
        } else {
            y1_x1
        }
    };
    let part = if row == row0 {
        y0 as int
    } else {
        y1 as int
    };
    let p = if column == column0 {
        512 - frac_x
    } else {
        frac_x as int
    };
    let q = if row == row0 {
        512 - frac_y
    } else {
        frac_y as int
    };
    lemma_vote_hits(
        h,
        row0,
        column0,
        bin,
        y0_x0,
        y0_x1,
        y1_x0,
        y1_x1,
        row - row0,
        column - column0,
    );
    lemma_two_shares(magnitude as int, part, value as int, p, q);
    assert((spatial_y / 512 + 1) * 6 + spatial_x / 512 + 1 == row0 * 6 + column0);
}

proof fn lemma_on_bin(bin: int)
    requires
        0 <= bin < 8,
    ensures
        3217 * bin * descriptor::GF3258_DESCRIPTOR_ANGLE_MAGIC / 0x1000_0000 == bin,
        (3217 * bin * descriptor::GF3258_DESCRIPTOR_ANGLE_MAGIC / 65536) % 4096 == 0,
{
}

/// A cell within one cell of a coordinate is one of the two around it.
proof fn lemma_near_cell(c: int, cell: int)
    requires
        -512 <= c - (512 * cell - 1280) < 512,
    ensures
        ({
            let first = (c + 768) / 512 + 1;
            let off = c - (512 * cell - 1280);
            &&& cell == first || cell == first + 1
            &&& cell == first ==> off == (c + 768) % 512
            &&& cell == first + 1 ==> off == (c + 768) % 512 - 512
        }),
{
}

/// A value split by a fraction of 512.
proof fn lemma_split(value: u32, frac: u32)
    requires
        value < 0x10_0000,
        frac < 512,
    ensures
        ({
            let high = value.wrapping_mul(frac) / 512;
            let low = value.wrapping_sub(high);
            &&& high <= value && low <= value
            &&& -512 < 512 * high - value * frac <= 0
            &&& 0 <= 512 * low - value * (512 - frac) < 512
        }),
{
    assert(0 <= value * frac < 0x1_0000_0000 && value * frac <= value * 512 && value * (512 - frac)
        == value * 512 - value * frac) by (nonlinear_arith)
        requires
            0 <= value < 0x10_0000,
            0 <= frac < 512,
    ;
}

proof fn lemma_two_shares(weight: int, part: int, value: int, p: int, q: int)
    requires
        0 <= p <= 512,
        -512 < 512 * value - part * p < 512,
        -512 < 512 * part - weight * q < 512,
    ensures
        ({
            let share = weight * q * p;
            -0x88_0000 < 0x80_0000 * (value / 32) - share < 0x88_0000
        }),
{
    let inner = 512 * value - part * p;
    let outer = 512 * part - weight * q;
    assert(0x4_0000 * value - weight * q * p == 512 * inner + p * outer) by (nonlinear_arith)
        requires
            inner == 512 * value - part * p,
            outer == 512 * part - weight * q,
    ;
    assert(-0x4_0000 <= p * outer <= 0x4_0000) by (nonlinear_arith)
        requires
            0 <= p <= 512,
            -512 < outer < 512,
    ;
    let share = weight * q * p;
    let gain = value / 32;
    assert(-0x8_0000 < 0x4_0000 * value - share < 0x8_0000);
    assert(value - 31 <= 32 * gain <= value);
}

/// A vote of the four that goes to one cell and, at the fraction zero, to one bin.
proof fn lemma_vote_hits(
    h: Seq<u32>,
    row0: int,
    column0: int,
    bin: int,
    first: u32,
    second: u32,
    third: u32,
    fourth: u32,
    down: int,
    right: int,
)
    requires
        h.len() == 288,
        0 <= row0 < 5,
        0 <= column0 < 5,
        0 <= bin < 8,
        0 <= down <= 1,
        0 <= right <= 1,
        h[(row0 + down) * 48 + (column0 + right) * 8 + bin] < 0x8000_0000,
    ensures
        ({
            let cell = row0 * 6 + column0;
            let bin1 = (bin + 1) % 8;
            let h0 = descriptor::add_vote(h, cell, bin, bin1, first, 0);
            let h1 = descriptor::add_vote(h0, cell + 1, bin, bin1, second, 0);
            let h2 = descriptor::add_vote(h1, cell + 6, bin, bin1, third, 0);
            let h3 = descriptor::add_vote(h2, cell + 7, bin, bin1, fourth, 0);
            let value = if down == 0 {
                if right == 0 {
                    first
                } else {
                    second
                }
            } else {
                if right == 0 {
                    third
                } else {
                    fourth
                }
            };
            let k = (row0 + down) * 48 + (column0 + right) * 8 + bin;
            h3[k] - h[k] == value as int / 32
        }),
{
    let cell = row0 * 6 + column0;
    let bin1 = (bin + 1) % 8;
    let row = row0 + down;
    let column = column0 + right;
    let k = row * 48 + column * 8 + bin;
    let h0 = descriptor::add_vote(h, cell, bin, bin1, first, 0);
    let h1 = descriptor::add_vote(h0, cell + 1, bin, bin1, second, 0);
    let h2 = descriptor::add_vote(h1, cell + 6, bin, bin1, third, 0);
    assert(bin1 != bin);
    lemma_whole_vote(h, row0, column0, bin, first, row, column);
    lemma_whole_vote(h0, row0, column0 + 1, bin, second, row, column);
    lemma_whole_vote(h1, row0 + 1, column0, bin, third, row, column);
    lemma_whole_vote(h2, row0 + 1, column0 + 1, bin, fourth, row, column);
    assert((row0 + 1) * 6 + column0 == cell + 6);
    assert((row0 + 1) * 6 + column0 + 1 == cell + 7);
    assert(row0 * 6 + (column0 + 1) == cell + 1);
}

proof fn lemma_whole_vote(
    h: Seq<u32>,
    row0: int,
    column0: int,
    bin: int,
    value: u32,
    row: int,
    column: int,
)
    requires
        h.len() == 288,
        0 <= row0 < 6,
        0 <= column0 < 6,
        0 <= bin < 8,
        0 <= row < 6,
        0 <= column < 6,
    ensures
        ({
            let after = descriptor::add_vote(
                h,
                row0 * 6 + column0,
                bin,
                (bin + 1) % 8,
                value,
                0,
            );
            let k = row * 48 + column * 8 + bin;
            &&& after.len() == 288
            &&& row != row0 || column != column0 ==> after[k] == h[k]
            &&& row == row0 && column == column0 && h[k] < 0x8000_0000 ==> after[k] - h[k]
                == value as int / 32
        }),
{
    let k = row * 48 + column * 8 + bin;
    let cell = row0 * 6 + column0;
    let bin1 = (bin + 1) % 8;
    assert(bin1 != bin);
    assert(value.wrapping_mul(0) == 0);
    lemma_other_entry(row, column, bin, row0, column0, bin1);
    if row != row0 || column != column0 {
        lemma_other_entry(row, column, bin, row0, column0, bin);
        lemma_vote_elsewhere(h, cell, bin, bin1, value, 0, k);
    } else {
        assert(k == cell * 8 + bin);
    }
}

} // verus!
