//! Cold configuration of the ChicagoH sensor: one-time-programmable memory checks,
//! calibration, and the configuration block generated from them.
use vstd::prelude::*;

use crate::bytes;
use crate::protocol::{Command, McuPacket};
use crate::text;

verus! {

/// Length of the one-time-programmable memory.
pub const OTP_LEN: usize = 0x40;

pub const CONFIG_LEN: usize = 0x100;

/// Sum of all configuration words, modulo 65536.
pub const CONFIG_SUM_TARGET: u16 = 0x5a5b;

pub const EXPECTED_BASE_CHECKSUM: u16 = 0x0e53;

pub const IMAGE_TCODE_KEY: u16 = 0x005c;

pub const FDT_DELTA_KEY: u16 = 0x0082;

pub const FDT_OFFSET_KEY: u16 = 0x0056;

/// The base configuration as little-endian words. The last sixteen bits are
/// replaced by the checksum.
pub const CHICAGO_H_BASE_QWORDS: [u64; 32] = [
    0xc92c9d2c716011b0,
    0xfd00fd00fd18e51c,
    0x0400ca800100ba03,
    0x000086b315008400,
    0x00008aba000088c4,
    0x00008eaa00008cb2,
    0xb10092bbbb0090c1,
    0x000096a8000094b1,
    0x00009a00000098b6,
    0x0000d4000000d200,
    0x0000d8000000d600,
    0x0000d00501005000,
    0x7800720000007000,
    0x1000201234007456,
    0x0100220402012a40,
    0x0100800032002420,
    0x2400560080005c00,
    0x0c00320203005820,
    0x00007c0003006602,
    0x82012a1580008258,
    0x1400242001002203,
    0x00005c0001008000,
    0x0300582004005601,
    0x030066020c003202,
    0x8000825800007c00,
    0x80005c0008012a15,
    0x0400620110005400,
    0x0300660019006403,
    0x08012a5801007c00,
    0x0800520100005c00,
    0x0300660100005400,
    0xffbc005801007c00,
];

#[derive(Debug, Clone, Copy, PartialEq, Eq)]
pub struct ChicagoHCalibration {
    pub tcode: u16,
    pub diff: u16,
    pub fdt_offset: u8,
}

#[derive(Debug, Clone, PartialEq, Eq)]
pub struct ChicagoHConfig {
    pub bytes: [u8; 256],
    pub calibration: ChicagoHCalibration,
    pub checksum: u16,
}

#[derive(Debug, Clone, PartialEq, Eq)]
pub enum ChicagoHError {
    OtpCrcMismatch { section: &'static str, calculated: u8, stored: u8 },
    InvalidTcodeDiffCopies { source: u8, redundant: u8 },
    InvalidFdtOffsetEncoding { encoded: u8 },
    ArithmeticOverflow,
    ConfigKeyMissing { key: u16, start: usize, end: usize },
    UnexpectedBaseChecksum { expected: u16, actual: u16 },
    ConfigChecksumInvariant { expected: u16, actual: u16 },
    UnexpectedDownloadCompletion { command: u8, payload: Vec<u8> },
}

/// One shift of the CRC-8 register with polynomial 0x07.
pub open spec fn crc8_shift(crc: u8) -> u8 {
    if crc & 0x80u8 != 0 {
        (crc << 1u8) ^ 0x07u8
    } else {
        crc << 1u8
    }
}

pub open spec fn crc8_shifts(crc: u8, n: nat) -> u8
    decreases n,
{
    if n == 0 {
        crc
    } else {
        crc8_shift(crc8_shifts(crc, (n - 1) as nat))
    }
}

/// The CRC-8 register after a byte string: initial value zero, no reflection.
pub open spec fn crc8_register(data: Seq<u8>) -> u8
    decreases data.len(),
{
    if data.len() == 0 {
        0u8
    } else {
        crc8_shifts(crc8_register(data.drop_last()) ^ data.last(), 8)
    }
}

/// CRC-8 with the final complement.
pub open spec fn crc8_spec(data: Seq<u8>) -> u8 {
    !crc8_register(data)
}

/// CRC-8 of a byte string: polynomial 0x07, initial value zero, no reflection,
/// final complement.
pub fn goodix_crc8(data: &[u8]) -> (crc: u8)
    ensures
        crc == crc8_spec(data@),
{
    let mut crc: u8 = 0u8;
    for i in 0..data.len()
        invariant
            crc == crc8_register(data@.take(i as int)),
    {
        crc = crc ^ data[i];
        let ghost mixed = crc;
        for k in 0..8u32
            invariant
                crc == crc8_shifts(mixed, k as nat),
        {
            if crc & 0x80u8 != 0 {
                crc = (crc << 1u8) ^ 0x07u8;
            } else {
                crc = crc << 1u8;
            }
        }
        proof {
            assert(data@.take(i + 1).drop_last() =~= data@.take(i as int));
        }
    }
    proof {
        assert(data@.take(data@.len() as int) =~= data@);
    }
    !crc
}

/// What the CP checksum covers.
pub open spec fn cp_bytes(otp: Seq<u8>) -> Seq<u8> {
    otp.subrange(0x00, 0x0b) + otp.subrange(0x24, 0x28)
}

/// What the FT checksum covers.
pub open spec fn ft_bytes(otp: Seq<u8>) -> Seq<u8> {
    otp.subrange(0x0b, 0x14) + otp.subrange(0x1c, 0x1d) + otp.subrange(0x32, 0x36) + otp.subrange(
        0x38,
        0x3c,
    ) + otp.subrange(0x3e, 0x3f)
}

/// What the MT checksum covers.
pub open spec fn mt_bytes(otp: Seq<u8>) -> Seq<u8> {
    otp.subrange(0x14, 0x1c) + otp.subrange(0x1d, 0x24) + otp.subrange(0x28, 0x32) + otp.subrange(
        0x36,
        0x38,
    )
}

/// The first section whose stored CRC is wrong, as an error.
pub open spec fn otp_error(otp: Seq<u8>) -> Option<ChicagoHError> {
    if crc8_spec(cp_bytes(otp)) != otp[0x3c] {
        Some(
            ChicagoHError::OtpCrcMismatch {
                section: "CP",
                calculated: crc8_spec(cp_bytes(otp)),
                stored: otp[0x3c],
            },
        )
    } else if crc8_spec(ft_bytes(otp)) != otp[0x3d] {
        Some(
            ChicagoHError::OtpCrcMismatch {
                section: "FT",
                calculated: crc8_spec(ft_bytes(otp)),
                stored: otp[0x3d],
            },
        )
    } else if crc8_spec(mt_bytes(otp)) != otp[0x3f] {
        Some(
            ChicagoHError::OtpCrcMismatch {
                section: "MT",
                calculated: crc8_spec(mt_bytes(otp)),
                stored: otp[0x3f],
            },
        )
    } else {
        None
    }
}

/// Appends bytes `lo..hi` of the memory.
fn push_range(out: &mut Vec<u8>, otp: &[u8; 64], lo: usize, hi: usize)
    requires
        lo <= hi <= OTP_LEN,
    ensures
        final(out)@ == old(out)@ + otp@.subrange(lo as int, hi as int),
{
    let ghost before = out@;
    for i in lo..hi
        invariant
            lo <= hi <= OTP_LEN,
            out@ == before + otp@.subrange(lo as int, i as int),
    {
        out.push(otp[i]);
        assert(out@ =~= before + otp@.subrange(lo as int, i + 1));
    }
}

fn check_otp_crc(section: &'static str, calculated: u8, stored: u8) -> (result: Result<
    (),
    ChicagoHError,
>)
    ensures
        result == (if calculated == stored {
            Ok::<(), ChicagoHError>(())
        } else {
            Err(ChicagoHError::OtpCrcMismatch { section, calculated, stored })
        }),
{
    if calculated == stored {
        return Ok(());
    }
    Err(ChicagoHError::OtpCrcMismatch { section, calculated, stored })
}

/// Checks the three section CRCs of the memory.
pub fn validate_otp(otp: &[u8; 64]) -> (result: Result<(), ChicagoHError>)
    ensures
        result == (match otp_error(otp@) {
            Some(error) => Err::<(), ChicagoHError>(error),
            None => Ok(()),
        }),
{
    let mut cp: Vec<u8> = Vec::with_capacity(15);
    push_range(&mut cp, otp, 0x00, 0x0b);
    push_range(&mut cp, otp, 0x24, 0x28);
    assert(cp@ =~= cp_bytes(otp@));
    check_otp_crc("CP", goodix_crc8(cp.as_slice()), otp[0x3c])?;
    let mut ft: Vec<u8> = Vec::with_capacity(19);
    push_range(&mut ft, otp, 0x0b, 0x14);
    push_range(&mut ft, otp, 0x1c, 0x1d);
    push_range(&mut ft, otp, 0x32, 0x36);
    push_range(&mut ft, otp, 0x38, 0x3c);
    push_range(&mut ft, otp, 0x3e, 0x3f);
    assert(ft@ =~= ft_bytes(otp@));
    check_otp_crc("FT", goodix_crc8(ft.as_slice()), otp[0x3d])?;
    let mut mt: Vec<u8> = Vec::with_capacity(27);
    push_range(&mut mt, otp, 0x14, 0x1c);
    push_range(&mut mt, otp, 0x1d, 0x24);
    push_range(&mut mt, otp, 0x28, 0x32);
    push_range(&mut mt, otp, 0x36, 0x38);
    assert(mt@ =~= mt_bytes(otp@));
    check_otp_crc("MT", goodix_crc8(mt.as_slice()), otp[0x3f])
}

/// The offset that two of the three two-bit copies in a byte agree on; the
/// middle copy is stored complemented.
pub open spec fn fdt_offset_spec(encoded: u8) -> Option<u8> {
    let a = (encoded % 4) as u8;
    let b = (3 - (encoded / 4) % 4) as u8;
    let c = ((encoded / 16) % 4) as u8;
    if a == c || a == b {
        Some(a)
    } else if b == c {
        Some(c)
    } else {
        None
    }
}

pub fn decode_fdt_offset(encoded: u8) -> (offset: Option<u8>)
    ensures
        offset == fdt_offset_spec(encoded),
        offset is Some ==> offset->Some_0 <= 3,
{
    let a: u8 = encoded % 4;
    let b: u8 = 3 - (encoded / 4) % 4;
    let c: u8 = (encoded / 16) % 4;
    if a == c || a == b {
        Some(a)
    } else if b == c {
        Some(c)
    } else {
        None
    }
}

/// What is wrong with the calibration bytes, if anything.
pub open spec fn calibration_error(otp: Seq<u8>) -> Option<ChicagoHError> {
    if otp[0x2a] == 0 || otp[0x2a] != otp[0x2d] {
        Some(ChicagoHError::InvalidTcodeDiffCopies { source: otp[0x2a], redundant: otp[0x2d] })
    } else if fdt_offset_spec(otp[0x1b]) is None {
        Some(ChicagoHError::InvalidFdtOffsetEncoding { encoded: otp[0x1b] })
    } else {
        None
    }
}

/// The T-code: the high half of its byte plus five, times sixteen.
pub open spec fn tcode_spec(source: u8) -> int {
    (source / 16 + 5) * 16
}

/// The calibration that the memory holds.
pub open spec fn calibration_spec(otp: Seq<u8>) -> ChicagoHCalibration {
    let source = otp[0x2a];
    ChicagoHCalibration {
        tcode: tcode_spec(source) as u16,
        diff: ((((source % 16 + 2) * 100 * 256) / tcode_spec(source)) / 0x30) as u16,
        fdt_offset: fdt_offset_spec(otp[0x1b])->Some_0,
    }
}

/// Decodes the calibration bytes. The arithmetic never overflows.
pub fn decode_calibration(otp: &[u8; 64]) -> (result: Result<ChicagoHCalibration, ChicagoHError>)
    ensures
        result == (match calibration_error(otp@) {
            Some(error) => Err::<ChicagoHCalibration, ChicagoHError>(error),
            None => Ok(calibration_spec(otp@)),
        }),
        result is Ok ==> result->Ok_0.tcode <= 320 && result->Ok_0.diff <= 113
            && result->Ok_0.fdt_offset <= 3,
        result is Ok ==> {
            let calibration = result->Ok_0;
            let low = otp@[0x2a] as int % 16;
            &&& calibration.tcode == otp@[0x2a] - low + 80
            &&& calibration.diff * (0x30 * calibration.tcode as int) <= (low + 2) * 25600
            &&& (low + 2) * 25600 < (calibration.diff + 1) * (0x30 * calibration.tcode as int)
        },
{
    proof {
        let low = otp@[0x2a] as int % 16;
        lemma_calibration_halves(otp@, otp@[0x2a] as int / 16, low);
    }
    let source: u8 = otp[0x2a];
    let redundant: u8 = otp[0x2d];
    if source == 0 || source != redundant {
        return Err(ChicagoHError::InvalidTcodeDiffCopies { source, redundant });
    }
    let tcode: u32 = (source as u32 / 16 + 5) * 16;
    let numerator: u32 = (source as u32 % 16 + 2) * 100 * 256;
    let divided: u32 = numerator / tcode;
    proof {
        vstd::arithmetic::div_mod::lemma_div_is_ordered(
            numerator as int,
            435200int,
            tcode as int,
        );
        vstd::arithmetic::div_mod::lemma_div_is_ordered_by_denominator(
            435200int,
            80int,
            tcode as int,
        );
    }
    match decode_fdt_offset(otp[0x1b]) {
        Some(fdt_offset) => Ok(
            ChicagoHCalibration { tcode: tcode as u16, diff: (divided / 0x30) as u16, fdt_offset },
        ),
        None => Err(ChicagoHError::InvalidFdtOffsetEncoding { encoded: otp[0x1b] }),
    }
}

/// Dividing by `b` and then by `c` is dividing by their product.
proof fn lemma_divided_twice(n: int, b: int, c: int)
    requires
        n >= 0,
        b > 0,
        c > 0,
    ensures
        ((n / b) / c) * (c * b) <= n < ((n / b) / c + 1) * (c * b),
{
    let q = n / b;
    let r = q / c;
    vstd::arithmetic::div_mod::lemma_fundamental_div_mod(n, b);
    vstd::arithmetic::div_mod::lemma_fundamental_div_mod(q, c);
    let n_rest = n % b;
    let q_rest = q % c;
    assert(r * (c * b) <= n < (r + 1) * (c * b)) by (nonlinear_arith)
        requires
            n == b * q + n_rest,
            q == c * r + q_rest,
            0 <= n_rest < b,
            0 <= q_rest < c,
            b > 0,
            c > 0,
    ;
}

/// The calibration byte in its two halves: the high half gives the T-code, five
/// steps of sixteen up, and the low half gives the difference, which is the
/// largest number of 48ths of the T-code in 256 hundreds per step, two steps up.
pub proof fn lemma_calibration_halves(otp: Seq<u8>, high: int, low: int)
    requires
        otp[0x2a] == 16 * high + low,
        0 <= low < 16,
    ensures
        ({
            let calibration = calibration_spec(otp);
            &&& calibration.tcode == 16 * high + 80
            &&& calibration.diff * (0x30 * (16 * high + 80)) <= (low + 2) * 25600
            &&& (low + 2) * 25600 < (calibration.diff + 1) * (0x30 * (16 * high + 80))
        }),
{
    let numerator = (low + 2) * 25600;
    let tcode = 16 * high + 80;
    lemma_divided_twice(numerator, tcode, 0x30);
    assert((numerator / tcode) / 0x30 <= 0xffff) by (nonlinear_arith)
        requires
            0 <= numerator <= 435200,
            tcode >= 80,
    ;
    assert((numerator / tcode) / 0x30 >= 0) by (nonlinear_arith)
        requires
            0 <= numerator,
            tcode >= 80,
    ;
}

/// With the same high half, a greater low half never gives a smaller difference;
/// with the same low half, a greater high half gives a greater T-code and never a
/// greater difference.
pub proof fn lemma_calibration_ordered(a: Seq<u8>, b: Seq<u8>, high: int, low: int, other: int)
    requires
        a[0x2a] == 16 * high + low,
        0 <= low < 16,
    ensures
        low <= other < 16 && b[0x2a] == 16 * high + other ==> calibration_spec(a).diff
            <= calibration_spec(b).diff,
        high < other && b[0x2a] == 16 * other + low ==> calibration_spec(a).tcode
            < calibration_spec(b).tcode && calibration_spec(a).diff >= calibration_spec(b).diff,
{
    lemma_calibration_halves(a, high, low);
    let da = calibration_spec(a).diff as int;
    let db = calibration_spec(b).diff as int;
    if low <= other < 16 && b[0x2a] == 16 * high + other {
        lemma_calibration_halves(b, high, other);
        assert(da <= db) by (nonlinear_arith)
            requires
                high >= 0,
                low <= other,
                da * (0x30 * (16 * high + 80)) <= (low + 2) * 25600,
                (other + 2) * 25600 < (db + 1) * (0x30 * (16 * high + 80)),
        ;
    }
    if high < other && b[0x2a] == 16 * other + low {
        lemma_calibration_halves(b, other, low);
        assert(da >= db) by (nonlinear_arith)
            requires
                0 <= high < other,
                db >= 0,
                db * (0x30 * (16 * other + 80)) <= (low + 2) * 25600,
                (low + 2) * 25600 < (da + 1) * (0x30 * (16 * high + 80)),
        ;
    }
}

/// The offset byte holds three copies, the middle one complemented. Any two that
/// agree decide, whatever the third and the two bits above it hold; three
/// different ones decode to nothing.
pub proof fn lemma_fdt_offset_majority(encoded: u8, first: int, second: int, third: int, rest: int)
    requires
        encoded == first + 4 * (3 - second) + 16 * third + 64 * rest,
        0 <= first <= 3,
        0 <= second <= 3,
        0 <= third <= 3,
        0 <= rest <= 3,
    ensures
        first == second ==> fdt_offset_spec(encoded) == Some(first as u8),
        first == third ==> fdt_offset_spec(encoded) == Some(first as u8),
        second == third ==> fdt_offset_spec(encoded) == Some(second as u8),
        first != second && first != third && second != third ==> fdt_offset_spec(encoded) is None,
{
}

/// Byte `i` of the base configuration.
pub open spec fn base_byte(i: int) -> u8 {
    bytes::le64_byte_spec(CHICAGO_H_BASE_QWORDS@[i / 8], i % 8)
}

pub open spec fn base_config_spec() -> Seq<u8> {
    Seq::new(CONFIG_LEN as nat, |i: int| base_byte(i))
}

/// The base configuration before its checksum.
pub fn base_config() -> (config: [u8; 256])
    ensures
        config@ == base_config_spec(),
{
    let mut config: [u8; 256] = [0u8;256];
    for i in 0..256usize
        invariant
            forall|j: int| 0 <= j < i ==> config@[j] == base_byte(j),
    {
        config[i] = bytes::le64_byte(CHICAGO_H_BASE_QWORDS[i / 8], i % 8);
    }
    assert(config@ =~= base_config_spec());
    config
}

/// The little-endian word at position `i`.
pub open spec fn word_at(config: Seq<u8>, i: int) -> u16 {
    (config[i] + config[i + 1] * 256) as u16
}

/// The configuration with the little-endian word at position `i` replaced.
pub open spec fn put_word(config: Seq<u8>, i: int, value: u16) -> Seq<u8> {
    config.update(i, (value % 256) as u8).update(i + 1, (value / 256) as u8)
}

fn read_word(config: &[u8; 256], i: usize) -> (word: u16)
    requires
        i + 1 < CONFIG_LEN,
    ensures
        word == word_at(config@, i as int),
{
    config[i] as u16 + config[i + 1] as u16 * 256
}

fn write_word(config: &mut [u8; 256], i: usize, value: u16)
    requires
        i + 1 < CONFIG_LEN,
    ensures
        final(config)@ == put_word(old(config)@, i as int, value),
{
    config[i] = (value % 256) as u8;
    config[i + 1] = (value / 256) as u8;
}

/// Sum of the first `n` words, modulo 65536.
pub open spec fn word_sum(config: Seq<u8>, n: nat) -> u16
    decreases n,
{
    if n == 0 {
        0u16
    } else {
        word_sum(config, (n - 1) as nat).wrapping_add(word_at(config, 2 * (n - 1)))
    }
}

/// The checksum word that makes the word sum hit its target.
pub open spec fn checksum_spec(config: Seq<u8>) -> u16 {
    CONFIG_SUM_TARGET.wrapping_sub(word_sum(config, 127))
}

/// The configuration with its last word set to the checksum.
pub open spec fn with_checksum(config: Seq<u8>) -> Seq<u8> {
    put_word(config, 0xfe, checksum_spec(config))
}

/// Sums of words that agree are equal.
proof fn lemma_word_sum_frame(a: Seq<u8>, b: Seq<u8>, n: nat)
    requires
        forall|i: int| 0 <= i < 2 * n ==> a[i] == b[i],
    ensures
        word_sum(a, n) == word_sum(b, n),
    decreases n,
{
    if n > 0 {
        lemma_word_sum_frame(a, b, (n - 1) as nat);
        assert(a[2 * (n - 1)] == b[2 * (n - 1)]);
        assert(a[2 * (n - 1) + 1] == b[2 * (n - 1) + 1]);
    }
}

/// Once the checksum is set, the words of any configuration sum up to the
/// target.
pub proof fn lemma_checksum_reaches_target(config: Seq<u8>)
    requires
        config.len() == CONFIG_LEN,
    ensures
        word_sum(with_checksum(config), 128) == CONFIG_SUM_TARGET,
        word_at(with_checksum(config), 0xfe) == checksum_spec(config),
{
    let done = with_checksum(config);
    lemma_word_sum_frame(config, done, 127);
    assert(word_at(done, 254) == checksum_spec(config));
}

fn sum_words(config: &[u8; 256], count: usize) -> (sum: u16)
    requires
        count <= 128,
    ensures
        sum == word_sum(config@, count as nat),
{
    let mut sum: u16 = 0u16;
    for i in 0..count
        invariant
            count <= 128,
            sum == word_sum(config@, i as nat),
    {
        sum = sum.wrapping_add(read_word(config, 2 * i));
    }
    sum
}

/// Sets the checksum word and returns it.
pub fn recompute_config_checksum(config: &mut [u8; 256]) -> (checksum: u16)
    ensures
        final(config)@ == with_checksum(old(config)@),
        checksum == checksum_spec(old(config)@),
{
    let checksum: u16 = CONFIG_SUM_TARGET.wrapping_sub(sum_words(config, 127));
    write_word(config, 0xfe, checksum);
    checksum
}

/// Sum of all words, modulo 65536.
pub fn config_word_sum(config: &[u8; 256]) -> (sum: u16)
    ensures
        sum == word_sum(config@, 128),
{
    sum_words(config, 128)
}

/// Start and end of a section, from its start and length bytes.
pub fn section_bounds(config: &[u8; 256], start_field: usize, length_field: usize) -> (bounds: (
    usize,
    usize,
))
    requires
        start_field < CONFIG_LEN,
        length_field < CONFIG_LEN,
    ensures
        bounds.0 == config@[start_field as int],
        bounds.1 == config@[start_field as int] + config@[length_field as int],
{
    let start: usize = config[start_field] as usize;
    let length: usize = config[length_field] as usize;
    (start, start + length)
}

/// Position of the first four-byte record of a section that has the given key.
pub open spec fn find_record(config: Seq<u8>, start: int, end: int, key: u16) -> Option<int>
    decreases end - start,
{
    if start + 4 > end {
        None
    } else if word_at(config, start) == key {
        Some(start)
    } else {
        find_record(config, start + 4, end, key)
    }
}

/// The value of the first record with the given key.
pub open spec fn find_value(config: Seq<u8>, start: int, end: int, key: u16) -> Option<u16> {
    match find_record(config, start, end, key) {
        Some(at) => Some(word_at(config, at + 2)),
        None => None,
    }
}

/// The search for the given key stays within the configuration until it ends.
pub open spec fn search_fits(config: Seq<u8>, start: int, end: int, key: u16) -> bool
    decreases end - start,
{
    if start + 4 > end {
        start + 4 <= usize::MAX
    } else if start + 2 > CONFIG_LEN {
        false
    } else if word_at(config, start) == key {
        start + 4 <= CONFIG_LEN
    } else {
        search_fits(config, start + 4, end, key)
    }
}

/// A search that ends with the configuration stays within it.
pub proof fn lemma_search_fits(config: Seq<u8>, start: int, end: int, key: u16)
    requires
        start <= CONFIG_LEN,
        end <= CONFIG_LEN,
    ensures
        search_fits(config, start, end, key),
    decreases end - start,
{
    if start + 4 <= end {
        lemma_search_fits(config, start + 4, end, key);
    }
}

fn record_position(config: &[u8; 256], start: usize, end: usize, key: u16) -> (at: Option<usize>)
    requires
        search_fits(config@, start as int, end as int, key),
    ensures
        match find_record(config@, start as int, end as int, key) {
            Some(p) => at == Some(p as usize) && start <= p && p + 4 <= end && p + 4 <= CONFIG_LEN,
            None => at is None,
        },
{
    let mut offset: usize = start;
    while offset + 4 <= end
        invariant
            start <= offset,
            search_fits(config@, offset as int, end as int, key),
            find_record(config@, start as int, end as int, key) == find_record(
                config@,
                offset as int,
                end as int,
                key,
            ),
        decreases end - offset,
    {
        if read_word(config, offset) == key {
            return Some(offset);
        }
        offset = offset + 4;
    }
    None
}

/// The value of the first record of a section that has the given key.
pub fn find_config_value(config: &[u8; 256], start: usize, end: usize, key: u16) -> (value: Option<
    u16,
>)
    requires
        search_fits(config@, start as int, end as int, key),
    ensures
        value == find_value(config@, start as int, end as int, key),
{
    match record_position(config, start, end, key) {
        Some(at) => Some(read_word(config, at + 2)),
        None => None,
    }
}

/// The configuration with the value of a record replaced and the checksum set.
pub open spec fn with_value(
    config: Seq<u8>,
    start: int,
    end: int,
    key: u16,
    value: u16,
) -> Seq<u8> {
    with_checksum(put_word(config, find_record(config, start, end, key)->Some_0 + 2, value))
}

/// Replaces the value of the first record with the given key, sets the checksum
/// and returns the value that was there.
pub fn replace_config_value(
    config: &mut [u8; 256],
    start: usize,
    end: usize,
    key: u16,
    new_value: u16,
) -> (result: Result<u16, ChicagoHError>)
    requires
        search_fits(old(config)@, start as int, end as int, key),
    ensures
        match find_value(old(config)@, start as int, end as int, key) {
            Some(value) => result == Ok::<u16, ChicagoHError>(value) && final(config)@
                == with_value(old(config)@, start as int, end as int, key, new_value),
            None => result == Err::<u16, ChicagoHError>(
                ChicagoHError::ConfigKeyMissing { key, start, end },
            ) && final(config)@ == old(config)@,
        },
{
    match record_position(config, start, end, key) {
        Some(at) => {
            let old_value: u16 = read_word(config, at + 2);
            write_word(config, at + 2, new_value);
            recompute_config_checksum(config);
            Ok(old_value)
        },
        None => Err(ChicagoHError::ConfigKeyMissing { key, start, end }),
    }
}

/// Bytes of the base configuration that locate its sections and their records.
proof fn lemma_base_records()
    ensures
        base_byte(5) == 0x9d,
        base_byte(6) == 0x2c,
        base_byte(9) == 0xe5,
        base_byte(10) == 0x18,
        has_records(base_config_spec()),
{
    assert(CHICAGO_H_BASE_QWORDS@[0] == 0xc92c9d2c716011b0u64);
    assert(CHICAGO_H_BASE_QWORDS@[1] == 0xfd00fd00fd18e51cu64);
    assert(CHICAGO_H_BASE_QWORDS@[19] == 0x82012a1580008258u64);
    assert(CHICAGO_H_BASE_QWORDS@[20] == 0x1400242001002203u64);
    assert(CHICAGO_H_BASE_QWORDS@[21] == 0x00005c0001008000u64);
    assert(CHICAGO_H_BASE_QWORDS@[22] == 0x0300582004005601u64);
    assert(CHICAGO_H_BASE_QWORDS@[23] == 0x030066020c003202u64);
    assert(CHICAGO_H_BASE_QWORDS@[24] == 0x8000825800007c00u64);
    assert(CHICAGO_H_BASE_QWORDS@[28] == 0x08012a5801007c00u64);
    assert(CHICAGO_H_BASE_QWORDS@[29] == 0x0800520100005c00u64);
    assert(base_byte(5) == 0x9d);
    assert(base_byte(6) == 0x2c);
    assert(base_byte(9) == 0xe5);
    assert(base_byte(10) == 0x18);
    assert(base_byte(157) == 0x2a);
    assert(base_byte(158) == 0x01);
    assert(base_byte(161) == 0x22);
    assert(base_byte(162) == 0x00);
    assert(base_byte(165) == 0x24);
    assert(base_byte(166) == 0x00);
    assert(base_byte(169) == 0x80);
    assert(base_byte(170) == 0x00);
    assert(base_byte(173) == 0x5c);
    assert(base_byte(174) == 0x00);
    assert(base_byte(177) == 0x56);
    assert(base_byte(178) == 0x00);
    assert(base_byte(181) == 0x58);
    assert(base_byte(182) == 0x00);
    assert(base_byte(185) == 0x32);
    assert(base_byte(186) == 0x00);
    assert(base_byte(189) == 0x66);
    assert(base_byte(190) == 0x00);
    assert(base_byte(193) == 0x7c);
    assert(base_byte(194) == 0x00);
    assert(base_byte(197) == 0x82);
    assert(base_byte(198) == 0x00);
    assert(base_byte(229) == 0x2a);
    assert(base_byte(230) == 0x01);
    assert(base_byte(233) == 0x5c);
    assert(base_byte(234) == 0x00);
    let base = base_config_spec();
    assert(word_at(base, 157) == 0x012au16);
    assert(word_at(base, 161) == 0x0022u16);
    assert(word_at(base, 165) == 0x0024u16);
    assert(word_at(base, 169) == 0x0080u16);
    assert(word_at(base, 173) == 0x005cu16);
    assert(word_at(base, 177) == 0x0056u16);
    assert(word_at(base, 181) == 0x0058u16);
    assert(word_at(base, 185) == 0x0032u16);
    assert(word_at(base, 189) == 0x0066u16);
    assert(word_at(base, 193) == 0x007cu16);
    assert(word_at(base, 197) == 0x0082u16);
    assert(word_at(base, 229) == 0x012au16);
    assert(word_at(base, 233) == 0x005cu16);
}

/// The keys of the finger-detection and image sections stand where the base
/// configuration has them.
pub open spec fn has_records(config: Seq<u8>) -> bool {
    &&& word_at(config, 157) == 0x012au16
    &&& word_at(config, 161) == 0x0022u16
    &&& word_at(config, 165) == 0x0024u16
    &&& word_at(config, 169) == 0x0080u16
    &&& word_at(config, 173) == 0x005cu16
    &&& word_at(config, 177) == 0x0056u16
    &&& word_at(config, 181) == 0x0058u16
    &&& word_at(config, 185) == 0x0032u16
    &&& word_at(config, 189) == 0x0066u16
    &&& word_at(config, 193) == 0x007cu16
    &&& word_at(config, 197) == 0x0082u16
    &&& word_at(config, 229) == 0x012au16
    &&& word_at(config, 233) == 0x005cu16
}

/// Where the records are that generation replaces.
proof fn lemma_record_positions(config: Seq<u8>)
    requires
        has_records(config),
    ensures
        find_record(config, 157, 201, FDT_OFFSET_KEY) == Some(177int),
        find_record(config, 157, 201, FDT_DELTA_KEY) == Some(197int),
        find_record(config, 229, 253, IMAGE_TCODE_KEY) == Some(233int),
{
    reveal_with_fuel(find_record, 12);
}

/// The configuration of a calibration: the base configuration with the T-code
/// in the image section, the scaled difference in the finger-detection section,
/// and there also the offset, unless it is zero.
pub open spec fn config_spec(calibration: ChicagoHCalibration) -> Seq<u8> {
    let base = with_checksum(base_config_spec());
    let image = with_value(base, 229, 253, IMAGE_TCODE_KEY, calibration.tcode);
    let delta = with_value(
        image,
        157,
        201,
        FDT_DELTA_KEY,
        (calibration.diff * 256 + 0x80) as u16,
    );
    if calibration.fdt_offset == 0 {
        delta
    } else {
        with_value(
            delta,
            157,
            201,
            FDT_OFFSET_KEY,
            ((find_value(delta, 157, 201, FDT_OFFSET_KEY)->Some_0 / 256) * 256
                + calibration.fdt_offset + 8) as u16,
        )
    }
}

/// Why no configuration can be generated, if none can.
pub open spec fn config_error(otp: Seq<u8>) -> Option<ChicagoHError> {
    match otp_error(otp) {
        Some(error) => Some(error),
        None => calibration_error(otp),
    }
}

proof fn lemma_base_sum_0()
    ensures
        word_sum(base_config_spec(), 16) == 0x6ed2u16,
{
    let base = base_config_spec();
    assert(word_sum(base, 0) == 0);
    assert(CHICAGO_H_BASE_QWORDS@[0] == 0xc92c9d2c716011b0u64);
    assert(CHICAGO_H_BASE_QWORDS@[1] == 0xfd00fd00fd18e51cu64);
    assert(CHICAGO_H_BASE_QWORDS@[2] == 0x0400ca800100ba03u64);
    assert(CHICAGO_H_BASE_QWORDS@[3] == 0x000086b315008400u64);
    assert(word_at(base, 0) == 0x11b0u16);
    assert(word_sum(base, 1) == 0x11b0u16);
    assert(word_at(base, 2) == 0x7160u16);
    assert(word_sum(base, 2) == 0x8310u16);
    assert(word_at(base, 4) == 0x9d2cu16);
    assert(word_sum(base, 3) == 0x203cu16);
    assert(word_at(base, 6) == 0xc92cu16);
    assert(word_sum(base, 4) == 0xe968u16);
    assert(word_at(base, 8) == 0xe51cu16);
    assert(word_sum(base, 5) == 0xce84u16);
    assert(word_at(base, 10) == 0xfd18u16);
    assert(word_sum(base, 6) == 0xcb9cu16);
    assert(word_at(base, 12) == 0xfd00u16);
    assert(word_sum(base, 7) == 0xc89cu16);
    assert(word_at(base, 14) == 0xfd00u16);
    assert(word_sum(base, 8) == 0xc59cu16);
    assert(word_at(base, 16) == 0xba03u16);
    assert(word_sum(base, 9) == 0x7f9fu16);
    assert(word_at(base, 18) == 0x0100u16);
    assert(word_sum(base, 10) == 0x809fu16);
    assert(word_at(base, 20) == 0xca80u16);
    assert(word_sum(base, 11) == 0x4b1fu16);
    assert(word_at(base, 22) == 0x0400u16);
    assert(word_sum(base, 12) == 0x4f1fu16);
    assert(word_at(base, 24) == 0x8400u16);
    assert(word_sum(base, 13) == 0xd31fu16);
    assert(word_at(base, 26) == 0x1500u16);
    assert(word_sum(base, 14) == 0xe81fu16);
    assert(word_at(base, 28) == 0x86b3u16);
    assert(word_sum(base, 15) == 0x6ed2u16);
    assert(word_at(base, 30) == 0x0000u16);
    assert(word_sum(base, 16) == 0x6ed2u16);
}

proof fn lemma_base_sum_1()
    ensures
        word_sum(base_config_spec(), 32) == 0x5881u16,
{
    lemma_base_sum_0();
    let base = base_config_spec();
    assert(CHICAGO_H_BASE_QWORDS@[4] == 0x00008aba000088c4u64);
    assert(CHICAGO_H_BASE_QWORDS@[5] == 0x00008eaa00008cb2u64);
    assert(CHICAGO_H_BASE_QWORDS@[6] == 0xb10092bbbb0090c1u64);
    assert(CHICAGO_H_BASE_QWORDS@[7] == 0x000096a8000094b1u64);
    assert(word_at(base, 32) == 0x88c4u16);
    assert(word_sum(base, 17) == 0xf796u16);
    assert(word_at(base, 34) == 0x0000u16);
    assert(word_sum(base, 18) == 0xf796u16);
    assert(word_at(base, 36) == 0x8abau16);
    assert(word_sum(base, 19) == 0x8250u16);
    assert(word_at(base, 38) == 0x0000u16);
    assert(word_sum(base, 20) == 0x8250u16);
    assert(word_at(base, 40) == 0x8cb2u16);
    assert(word_sum(base, 21) == 0x0f02u16);
    assert(word_at(base, 42) == 0x0000u16);
    assert(word_sum(base, 22) == 0x0f02u16);
    assert(word_at(base, 44) == 0x8eaau16);
    assert(word_sum(base, 23) == 0x9dacu16);
    assert(word_at(base, 46) == 0x0000u16);
    assert(word_sum(base, 24) == 0x9dacu16);
    assert(word_at(base, 48) == 0x90c1u16);
    assert(word_sum(base, 25) == 0x2e6du16);
    assert(word_at(base, 50) == 0xbb00u16);
    assert(word_sum(base, 26) == 0xe96du16);
    assert(word_at(base, 52) == 0x92bbu16);
    assert(word_sum(base, 27) == 0x7c28u16);
    assert(word_at(base, 54) == 0xb100u16);
    assert(word_sum(base, 28) == 0x2d28u16);
    assert(word_at(base, 56) == 0x94b1u16);
    assert(word_sum(base, 29) == 0xc1d9u16);
    assert(word_at(base, 58) == 0x0000u16);
    assert(word_sum(base, 30) == 0xc1d9u16);
    assert(word_at(base, 60) == 0x96a8u16);
    assert(word_sum(base, 31) == 0x5881u16);
    assert(word_at(base, 62) == 0x0000u16);
    assert(word_sum(base, 32) == 0x5881u16);
}

proof fn lemma_base_sum_2()
    ensures
        word_sum(base_config_spec(), 48) == 0x003cu16,
{
    lemma_base_sum_1();
    let base = base_config_spec();
    assert(CHICAGO_H_BASE_QWORDS@[8] == 0x00009a00000098b6u64);
    assert(CHICAGO_H_BASE_QWORDS@[9] == 0x0000d4000000d200u64);
    assert(CHICAGO_H_BASE_QWORDS@[10] == 0x0000d8000000d600u64);
    assert(CHICAGO_H_BASE_QWORDS@[11] == 0x0000d00501005000u64);
    assert(word_at(base, 64) == 0x98b6u16);
    assert(word_sum(base, 33) == 0xf137u16);
    assert(word_at(base, 66) == 0x0000u16);
    assert(word_sum(base, 34) == 0xf137u16);
    assert(word_at(base, 68) == 0x9a00u16);
    assert(word_sum(base, 35) == 0x8b37u16);
    assert(word_at(base, 70) == 0x0000u16);
    assert(word_sum(base, 36) == 0x8b37u16);
    assert(word_at(base, 72) == 0xd200u16);
    assert(word_sum(base, 37) == 0x5d37u16);
    assert(word_at(base, 74) == 0x0000u16);
    assert(word_sum(base, 38) == 0x5d37u16);
    assert(word_at(base, 76) == 0xd400u16);
    assert(word_sum(base, 39) == 0x3137u16);
    assert(word_at(base, 78) == 0x0000u16);
    assert(word_sum(base, 40) == 0x3137u16);
    assert(word_at(base, 80) == 0xd600u16);
    assert(word_sum(base, 41) == 0x0737u16);
    assert(word_at(base, 82) == 0x0000u16);
    assert(word_sum(base, 42) == 0x0737u16);
    assert(word_at(base, 84) == 0xd800u16);
    assert(word_sum(base, 43) == 0xdf37u16);
    assert(word_at(base, 86) == 0x0000u16);
    assert(word_sum(base, 44) == 0xdf37u16);
    assert(word_at(base, 88) == 0x5000u16);
    assert(word_sum(base, 45) == 0x2f37u16);
    assert(word_at(base, 90) == 0x0100u16);
    assert(word_sum(base, 46) == 0x3037u16);
    assert(word_at(base, 92) == 0xd005u16);
    assert(word_sum(base, 47) == 0x003cu16);
    assert(word_at(base, 94) == 0x0000u16);
    assert(word_sum(base, 48) == 0x003cu16);
}

proof fn lemma_base_sum_3()
    ensures
        word_sum(base_config_spec(), 64) == 0x5909u16,
{
    lemma_base_sum_2();
    let base = base_config_spec();
    assert(CHICAGO_H_BASE_QWORDS@[12] == 0x7800720000007000u64);
    assert(CHICAGO_H_BASE_QWORDS@[13] == 0x1000201234007456u64);
    assert(CHICAGO_H_BASE_QWORDS@[14] == 0x0100220402012a40u64);
    assert(CHICAGO_H_BASE_QWORDS@[15] == 0x0100800032002420u64);
    assert(word_at(base, 96) == 0x7000u16);
    assert(word_sum(base, 49) == 0x703cu16);
    assert(word_at(base, 98) == 0x0000u16);
    assert(word_sum(base, 50) == 0x703cu16);
    assert(word_at(base, 100) == 0x7200u16);
    assert(word_sum(base, 51) == 0xe23cu16);
    assert(word_at(base, 102) == 0x7800u16);
    assert(word_sum(base, 52) == 0x5a3cu16);
    assert(word_at(base, 104) == 0x7456u16);
    assert(word_sum(base, 53) == 0xce92u16);
    assert(word_at(base, 106) == 0x3400u16);
    assert(word_sum(base, 54) == 0x0292u16);
    assert(word_at(base, 108) == 0x2012u16);
    assert(word_sum(base, 55) == 0x22a4u16);
    assert(word_at(base, 110) == 0x1000u16);
    assert(word_sum(base, 56) == 0x32a4u16);
    assert(word_at(base, 112) == 0x2a40u16);
    assert(word_sum(base, 57) == 0x5ce4u16);
    assert(word_at(base, 114) == 0x0201u16);
    assert(word_sum(base, 58) == 0x5ee5u16);
    assert(word_at(base, 116) == 0x2204u16);
    assert(word_sum(base, 59) == 0x80e9u16);
    assert(word_at(base, 118) == 0x0100u16);
    assert(word_sum(base, 60) == 0x81e9u16);
    assert(word_at(base, 120) == 0x2420u16);
    assert(word_sum(base, 61) == 0xa609u16);
    assert(word_at(base, 122) == 0x3200u16);
    assert(word_sum(base, 62) == 0xd809u16);
    assert(word_at(base, 124) == 0x8000u16);
    assert(word_sum(base, 63) == 0x5809u16);
    assert(word_at(base, 126) == 0x0100u16);
    assert(word_sum(base, 64) == 0x5909u16);
}

proof fn lemma_base_sum_4()
    ensures
        word_sum(base_config_spec(), 80) == 0xdb9bu16,
{
    lemma_base_sum_3();
    let base = base_config_spec();
    assert(CHICAGO_H_BASE_QWORDS@[16] == 0x2400560080005c00u64);
    assert(CHICAGO_H_BASE_QWORDS@[17] == 0x0c00320203005820u64);
    assert(CHICAGO_H_BASE_QWORDS@[18] == 0x00007c0003006602u64);
    assert(CHICAGO_H_BASE_QWORDS@[19] == 0x82012a1580008258u64);
    assert(word_at(base, 128) == 0x5c00u16);
    assert(word_sum(base, 65) == 0xb509u16);
    assert(word_at(base, 130) == 0x8000u16);
    assert(word_sum(base, 66) == 0x3509u16);
    assert(word_at(base, 132) == 0x5600u16);
    assert(word_sum(base, 67) == 0x8b09u16);
    assert(word_at(base, 134) == 0x2400u16);
    assert(word_sum(base, 68) == 0xaf09u16);
    assert(word_at(base, 136) == 0x5820u16);
    assert(word_sum(base, 69) == 0x0729u16);
    assert(word_at(base, 138) == 0x0300u16);
    assert(word_sum(base, 70) == 0x0a29u16);
    assert(word_at(base, 140) == 0x3202u16);
    assert(word_sum(base, 71) == 0x3c2bu16);
    assert(word_at(base, 142) == 0x0c00u16);
    assert(word_sum(base, 72) == 0x482bu16);
    assert(word_at(base, 144) == 0x6602u16);
    assert(word_sum(base, 73) == 0xae2du16);
    assert(word_at(base, 146) == 0x0300u16);
    assert(word_sum(base, 74) == 0xb12du16);
    assert(word_at(base, 148) == 0x7c00u16);
    assert(word_sum(base, 75) == 0x2d2du16);
    assert(word_at(base, 150) == 0x0000u16);
    assert(word_sum(base, 76) == 0x2d2du16);
    assert(word_at(base, 152) == 0x8258u16);
    assert(word_sum(base, 77) == 0xaf85u16);
    assert(word_at(base, 154) == 0x8000u16);
    assert(word_sum(base, 78) == 0x2f85u16);
    assert(word_at(base, 156) == 0x2a15u16);
    assert(word_sum(base, 79) == 0x599au16);
    assert(word_at(base, 158) == 0x8201u16);
    assert(word_sum(base, 80) == 0xdb9bu16);
}

proof fn lemma_base_sum_5()
    ensures
        word_sum(base_config_spec(), 96) == 0x6fe3u16,
{
    lemma_base_sum_4();
    let base = base_config_spec();
    assert(CHICAGO_H_BASE_QWORDS@[20] == 0x1400242001002203u64);
    assert(CHICAGO_H_BASE_QWORDS@[21] == 0x00005c0001008000u64);
    assert(CHICAGO_H_BASE_QWORDS@[22] == 0x0300582004005601u64);
    assert(CHICAGO_H_BASE_QWORDS@[23] == 0x030066020c003202u64);
    assert(word_at(base, 160) == 0x2203u16);
    assert(word_sum(base, 81) == 0xfd9eu16);
    assert(word_at(base, 162) == 0x0100u16);
    assert(word_sum(base, 82) == 0xfe9eu16);
    assert(word_at(base, 164) == 0x2420u16);
    assert(word_sum(base, 83) == 0x22beu16);
    assert(word_at(base, 166) == 0x1400u16);
    assert(word_sum(base, 84) == 0x36beu16);
    assert(word_at(base, 168) == 0x8000u16);
    assert(word_sum(base, 85) == 0xb6beu16);
    assert(word_at(base, 170) == 0x0100u16);
    assert(word_sum(base, 86) == 0xb7beu16);
    assert(word_at(base, 172) == 0x5c00u16);
    assert(word_sum(base, 87) == 0x13beu16);
    assert(word_at(base, 174) == 0x0000u16);
    assert(word_sum(base, 88) == 0x13beu16);
    assert(word_at(base, 176) == 0x5601u16);
    assert(word_sum(base, 89) == 0x69bfu16);
    assert(word_at(base, 178) == 0x0400u16);
    assert(word_sum(base, 90) == 0x6dbfu16);
    assert(word_at(base, 180) == 0x5820u16);
    assert(word_sum(base, 91) == 0xc5dfu16);
    assert(word_at(base, 182) == 0x0300u16);
    assert(word_sum(base, 92) == 0xc8dfu16);
    assert(word_at(base, 184) == 0x3202u16);
    assert(word_sum(base, 93) == 0xfae1u16);
    assert(word_at(base, 186) == 0x0c00u16);
    assert(word_sum(base, 94) == 0x06e1u16);
    assert(word_at(base, 188) == 0x6602u16);
    assert(word_sum(base, 95) == 0x6ce3u16);
    assert(word_at(base, 190) == 0x0300u16);
    assert(word_sum(base, 96) == 0x6fe3u16);
}

proof fn lemma_base_sum_6()
    ensures
        word_sum(base_config_spec(), 112) == 0xac55u16,
{
    lemma_base_sum_5();
    let base = base_config_spec();
    assert(CHICAGO_H_BASE_QWORDS@[24] == 0x8000825800007c00u64);
    assert(CHICAGO_H_BASE_QWORDS@[25] == 0x80005c0008012a15u64);
    assert(CHICAGO_H_BASE_QWORDS@[26] == 0x0400620110005400u64);
    assert(CHICAGO_H_BASE_QWORDS@[27] == 0x0300660019006403u64);
    assert(word_at(base, 192) == 0x7c00u16);
    assert(word_sum(base, 97) == 0xebe3u16);
    assert(word_at(base, 194) == 0x0000u16);
    assert(word_sum(base, 98) == 0xebe3u16);
    assert(word_at(base, 196) == 0x8258u16);
    assert(word_sum(base, 99) == 0x6e3bu16);
    assert(word_at(base, 198) == 0x8000u16);
    assert(word_sum(base, 100) == 0xee3bu16);
    assert(word_at(base, 200) == 0x2a15u16);
    assert(word_sum(base, 101) == 0x1850u16);
    assert(word_at(base, 202) == 0x0801u16);
    assert(word_sum(base, 102) == 0x2051u16);
    assert(word_at(base, 204) == 0x5c00u16);
    assert(word_sum(base, 103) == 0x7c51u16);
    assert(word_at(base, 206) == 0x8000u16);
    assert(word_sum(base, 104) == 0xfc51u16);
    assert(word_at(base, 208) == 0x5400u16);
    assert(word_sum(base, 105) == 0x5051u16);
    assert(word_at(base, 210) == 0x1000u16);
    assert(word_sum(base, 106) == 0x6051u16);
    assert(word_at(base, 212) == 0x6201u16);
    assert(word_sum(base, 107) == 0xc252u16);
    assert(word_at(base, 214) == 0x0400u16);
    assert(word_sum(base, 108) == 0xc652u16);
    assert(word_at(base, 216) == 0x6403u16);
    assert(word_sum(base, 109) == 0x2a55u16);
    assert(word_at(base, 218) == 0x1900u16);
    assert(word_sum(base, 110) == 0x4355u16);
    assert(word_at(base, 220) == 0x6600u16);
    assert(word_sum(base, 111) == 0xa955u16);
    assert(word_at(base, 222) == 0x0300u16);
    assert(word_sum(base, 112) == 0xac55u16);
}

proof fn lemma_base_sum_7()
    ensures
        word_sum(base_config_spec(), 127) == 0x4c08u16,
{
    lemma_base_sum_6();
    let base = base_config_spec();
    assert(CHICAGO_H_BASE_QWORDS@[28] == 0x08012a5801007c00u64);
    assert(CHICAGO_H_BASE_QWORDS@[29] == 0x0800520100005c00u64);
    assert(CHICAGO_H_BASE_QWORDS@[30] == 0x0300660100005400u64);
    assert(CHICAGO_H_BASE_QWORDS@[31] == 0xffbc005801007c00u64);
    assert(word_at(base, 224) == 0x7c00u16);
    assert(word_sum(base, 113) == 0x2855u16);
    assert(word_at(base, 226) == 0x0100u16);
    assert(word_sum(base, 114) == 0x2955u16);
    assert(word_at(base, 228) == 0x2a58u16);
    assert(word_sum(base, 115) == 0x53adu16);
    assert(word_at(base, 230) == 0x0801u16);
    assert(word_sum(base, 116) == 0x5baeu16);
    assert(word_at(base, 232) == 0x5c00u16);
    assert(word_sum(base, 117) == 0xb7aeu16);
    assert(word_at(base, 234) == 0x0000u16);
    assert(word_sum(base, 118) == 0xb7aeu16);
    assert(word_at(base, 236) == 0x5201u16);
    assert(word_sum(base, 119) == 0x09afu16);
    assert(word_at(base, 238) == 0x0800u16);
    assert(word_sum(base, 120) == 0x11afu16);
    assert(word_at(base, 240) == 0x5400u16);
    assert(word_sum(base, 121) == 0x65afu16);
    assert(word_at(base, 242) == 0x0000u16);
    assert(word_sum(base, 122) == 0x65afu16);
    assert(word_at(base, 244) == 0x6601u16);
    assert(word_sum(base, 123) == 0xcbb0u16);
    assert(word_at(base, 246) == 0x0300u16);
    assert(word_sum(base, 124) == 0xceb0u16);
    assert(word_at(base, 248) == 0x7c00u16);
    assert(word_sum(base, 125) == 0x4ab0u16);
    assert(word_at(base, 250) == 0x0100u16);
    assert(word_sum(base, 126) == 0x4bb0u16);
    assert(word_at(base, 252) == 0x0058u16);
    assert(word_sum(base, 127) == 0x4c08u16);
}

/// The base configuration has the expected checksum.
proof fn lemma_base_checksum()
    ensures
        checksum_spec(base_config_spec()) == EXPECTED_BASE_CHECKSUM,
{
    lemma_base_sum_7();
}

/// Generates the configuration of a sensor from its one-time-programmable
/// memory. Only a bad memory is an error: the base checksum, the records and the
/// word sum are always as they should be.
pub fn generate_config(otp: &[u8; 64]) -> (result: Result<ChicagoHConfig, ChicagoHError>)
    ensures
        match config_error(otp@) {
            Some(error) => result == Err::<ChicagoHConfig, ChicagoHError>(error),
            None => {
                &&& result is Ok
                &&& result->Ok_0.bytes@ == config_spec(calibration_spec(otp@))
                &&& result->Ok_0.calibration == calibration_spec(otp@)
                &&& result->Ok_0.checksum == word_at(result->Ok_0.bytes@, 0xfe)
                &&& word_sum(result->Ok_0.bytes@, 128) == CONFIG_SUM_TARGET
            },
        },
{
    match validate_otp(otp) {
        Ok(()) => {},
        Err(error) => {
            return Err(error);
        },
    }
    let calibration: ChicagoHCalibration = match decode_calibration(otp) {
        Ok(calibration) => calibration,
        Err(error) => {
            return Err(error);
        },
    };
    let mut config: [u8; 256] = base_config();
    let base_checksum: u16 = recompute_config_checksum(&mut config);
    proof {
        lemma_base_checksum();
        lemma_base_records();
        lemma_checksum_reaches_target(base_config_spec());
        lemma_patch_keeps_records(base_config_spec(), 0xfe, base_checksum);
    }
    if base_checksum != EXPECTED_BASE_CHECKSUM {
        return Err(
            ChicagoHError::UnexpectedBaseChecksum {
                expected: EXPECTED_BASE_CHECKSUM,
                actual: base_checksum,
            },
        );
    }
    let (fdt_start, fdt_end): (usize, usize) = section_bounds(&config, 5, 6);
    let (image_start, image_end): (usize, usize) = section_bounds(&config, 9, 10);
    let ghost base = config@;
    proof {
        lemma_with_value_keeps_records(base, 229, 253, IMAGE_TCODE_KEY, calibration.tcode);
        lemma_search_fits(base, 229, 253, IMAGE_TCODE_KEY);
    }
    replace_config_value(&mut config, image_start, image_end, IMAGE_TCODE_KEY, calibration.tcode)?;
    let ghost image = config@;
    let fdt_delta: u16 = calibration.diff * 256 + 0x80;
    proof {
        lemma_with_value_keeps_records(image, 157, 201, FDT_DELTA_KEY, fdt_delta);
        lemma_search_fits(image, 157, 201, FDT_DELTA_KEY);
    }
    replace_config_value(&mut config, fdt_start, fdt_end, FDT_DELTA_KEY, fdt_delta)?;
    let ghost delta = config@;
    if calibration.fdt_offset != 0 {
        proof {
            lemma_record_positions(delta);
            lemma_search_fits(delta, 157, 201, FDT_OFFSET_KEY);
        }
        let old_value: u16 = match find_config_value(&config, fdt_start, fdt_end, FDT_OFFSET_KEY) {
            Some(value) => value,
            None => {
                return Err(
                    ChicagoHError::ConfigKeyMissing {
                        key: FDT_OFFSET_KEY,
                        start: fdt_start,
                        end: fdt_end,
                    },
                );
            },
        };
        let new_value: u16 = (old_value / 256) * 256 + (calibration.fdt_offset + 8) as u16;
        proof {
            lemma_with_value_keeps_records(delta, 157, 201, FDT_OFFSET_KEY, new_value);
        }
        replace_config_value(&mut config, fdt_start, fdt_end, FDT_OFFSET_KEY, new_value)?;
    }
    let checksum: u16 = read_word(&config, 0xfe);
    let sum: u16 = config_word_sum(&config);
    if sum != CONFIG_SUM_TARGET {
        return Err(
            ChicagoHError::ConfigChecksumInvariant { expected: CONFIG_SUM_TARGET, actual: sum },
        );
    }
    Ok(ChicagoHConfig { bytes: config, calibration, checksum })
}

/// A generated configuration holds the calibration under its keys.
pub proof fn lemma_config_holds_calibration(calibration: ChicagoHCalibration)
    requires
        calibration.diff < 0xff,
        calibration.fdt_offset <= 3,
    ensures
        ({
            let config = config_spec(calibration);
            &&& find_value(config, 229, 253, IMAGE_TCODE_KEY) == Some(calibration.tcode)
            &&& find_value(config, 157, 201, FDT_DELTA_KEY) == Some(
                (calibration.diff * 256 + 0x80) as u16,
            )
            &&& calibration.fdt_offset != 0 ==> find_value(config, 157, 201, FDT_OFFSET_KEY) is Some
            && find_value(config, 157, 201, FDT_OFFSET_KEY)->Some_0 % 256 == calibration.fdt_offset
                + 8
            &&& word_sum(config, 128) == CONFIG_SUM_TARGET
        }),
{
    let base0 = base_config_spec();
    lemma_base_records();
    lemma_patch_keeps_records(base0, 0xfe, checksum_spec(base0));
    let base = with_checksum(base0);
    lemma_with_value_keeps_records(base, 229, 253, IMAGE_TCODE_KEY, calibration.tcode);
    let image = with_value(base, 229, 253, IMAGE_TCODE_KEY, calibration.tcode);
    let fdt_delta = (calibration.diff * 256 + 0x80) as u16;
    lemma_with_value_keeps_records(image, 157, 201, FDT_DELTA_KEY, fdt_delta);
    let delta = with_value(image, 157, 201, FDT_DELTA_KEY, fdt_delta);
    lemma_record_positions(base);
    lemma_record_positions(image);
    lemma_record_positions(delta);
    assert(word_at(delta, 235) == calibration.tcode);
    assert(word_at(delta, 199) == fdt_delta);
    if calibration.fdt_offset != 0 {
        let old_value = find_value(delta, 157, 201, FDT_OFFSET_KEY)->Some_0;
        let new_value = ((old_value / 256) * 256 + calibration.fdt_offset + 8) as u16;
        assert((old_value / 256) * 256 + calibration.fdt_offset + 8 <= 0xffff);
        lemma_with_value_keeps_records(delta, 157, 201, FDT_OFFSET_KEY, new_value);
        let config = with_value(delta, 157, 201, FDT_OFFSET_KEY, new_value);
        lemma_record_positions(config);
        assert(word_at(config, 235) == calibration.tcode);
        assert(word_at(config, 199) == fdt_delta);
    }
}

/// A patch outside the record keys leaves them in place.
proof fn lemma_patch_keeps_records(config: Seq<u8>, at: int, value: u16)
    requires
        config.len() == CONFIG_LEN,
        has_records(config),
        at == 0xfe || at == 179 || at == 199 || at == 235,
    ensures
        has_records(put_word(config, at, value)),
        put_word(config, at, value).len() == CONFIG_LEN,
        put_word(config, at, value)[5] == config[5],
        put_word(config, at, value)[6] == config[6],
        put_word(config, at, value)[9] == config[9],
        put_word(config, at, value)[10] == config[10],
{
}

/// Replacing one of the three generated values keeps the records and brings the
/// word sum to its target.
proof fn lemma_with_value_keeps_records(
    config: Seq<u8>,
    start: int,
    end: int,
    key: u16,
    value: u16,
)
    requires
        config.len() == CONFIG_LEN,
        has_records(config),
        (start == 229 && end == 253 && key == IMAGE_TCODE_KEY) || (start == 157 && end == 201 && (
        key == FDT_DELTA_KEY || key == FDT_OFFSET_KEY)),
    ensures
        find_record(config, start, end, key) is Some,
        ({
            let done = with_value(config, start, end, key, value);
            let at = find_record(config, start, end, key)->Some_0 + 2;
            &&& done.len() == CONFIG_LEN
            &&& has_records(done)
            &&& word_sum(done, 128) == CONFIG_SUM_TARGET
            &&& forall|i: int| 0 <= i < 0xfe && i != at && i != at + 1 ==> done[i] == config[i]
            &&& word_at(done, at) == value
        }),
{
    lemma_record_positions(config);
    let at = find_record(config, start, end, key)->Some_0 + 2;
    let put = put_word(config, at, value);
    lemma_patch_keeps_records(config, at, value);
    lemma_patch_keeps_records(put, 0xfe, checksum_spec(put));
    lemma_checksum_reaches_target(put);
}

/// The completion that a successful configuration download has.
pub open spec fn is_download_completion(packet: McuPacket) -> bool {
    packet.command == Command::DownloadConfig.code() && packet.payload@ == seq![0x01u8, 0x00u8]
}

/// Accepts only the completion of a successful configuration download.
pub fn validate_download_completion(packet: &McuPacket) -> (result: Result<(), ChicagoHError>)
    ensures
        is_download_completion(*packet) ==> result == Ok::<(), ChicagoHError>(()),
        !is_download_completion(*packet) ==> match result {
            Err(ChicagoHError::UnexpectedDownloadCompletion { command, payload }) => command
                == packet.command && payload@ == packet.payload@,
            _ => false,
        },
{
    if packet.is_command(Command::DownloadConfig) && packet.payload.len() == 2 && packet.payload[0]
        == 0x01 && packet.payload[1] == 0x00 {
        assert(packet.payload@ =~= seq![0x01u8, 0x00u8]);
        return Ok(());
    }
    let mut payload: Vec<u8> = Vec::with_capacity(packet.payload.len());
    bytes::push_all(&mut payload, packet.payload.as_slice());
    assert(payload@ =~= packet.payload@);
    Err(ChicagoHError::UnexpectedDownloadCompletion { command: packet.command, payload })
}

impl ChicagoHError {
    pub open spec fn message_spec(&self) -> Seq<char> {
        match self {
            ChicagoHError::OtpCrcMismatch { section, calculated, stored } => {
                "ChicagoH "@ + section@ + " OTP CRC mismatch: calculated 0x"@
                    + text::hex(*calculated as nat, 2) + ", stored 0x"@
                    + text::hex(*stored as nat, 2)
            },
            ChicagoHError::InvalidTcodeDiffCopies { source, redundant } => {
                "ChicagoH OTP T-code/diff copies are invalid: OTP[0x2a]=0x"@
                    + text::hex(*source as nat, 2) + ", OTP[0x2d]=0x"@
                    + text::hex(*redundant as nat, 2)
            },
            ChicagoHError::InvalidFdtOffsetEncoding { encoded } => {
                "ChicagoH OTP FDT-offset encoding 0x"@ + text::hex(*encoded as nat, 2)
                    + " has no majority"@
            },
            ChicagoHError::ArithmeticOverflow => "ChicagoH calibration arithmetic overflow"@,
            ChicagoHError::ConfigKeyMissing { key, start, end } => {
                "ChicagoH configuration key 0x"@ + text::hex(*key as nat, 4)
                    + " not found in section 0x"@ + text::hex(*start as nat, 2) + "..0x"@
                    + text::hex(*end as nat, 2)
            },
            ChicagoHError::UnexpectedBaseChecksum { expected, actual } => {
                "ChicagoH base configuration checksum mismatch: expected 0x"@
                    + text::hex(*expected as nat, 4) + ", calculated 0x"@
                    + text::hex(*actual as nat, 4)
            },
            ChicagoHError::ConfigChecksumInvariant { expected, actual } => {
                "ChicagoH configuration u16 sum mismatch: expected 0x"@
                    + text::hex(*expected as nat, 4) + ", calculated 0x"@
                    + text::hex(*actual as nat, 4)
            },
            ChicagoHError::UnexpectedDownloadCompletion { command, payload } => {
                "unexpected 0x90 DownloadConfig completion: command 0x"@
                    + text::hex(*command as nat, 2) + ", payload "@ + text::hex_list(payload@)
                    + "; expected command 0x90 with payload [01, 00]"@
            },
        }
    }

    /// The message of this error.
    pub fn message(&self) -> (text: String)
        ensures
            text@ == self.message_spec(),
    {
        match self {
            ChicagoHError::OtpCrcMismatch { section, calculated, stored } => {
                let mut out: String = "ChicagoH ".to_owned();
                out.append(section);
                out.append(" OTP CRC mismatch: calculated 0x");
                text::push_hex(&mut out, *calculated as u64, 2);
                out.append(", stored 0x");
                text::push_hex(&mut out, *stored as u64, 2);
                out
            },
            ChicagoHError::InvalidTcodeDiffCopies { source, redundant } => {
                let mut out: String =
                    "ChicagoH OTP T-code/diff copies are invalid: OTP[0x2a]=0x".to_owned();
                text::push_hex(&mut out, *source as u64, 2);
                out.append(", OTP[0x2d]=0x");
                text::push_hex(&mut out, *redundant as u64, 2);
                out
            },
            ChicagoHError::InvalidFdtOffsetEncoding { encoded } => {
                let mut out: String = "ChicagoH OTP FDT-offset encoding 0x".to_owned();
                text::push_hex(&mut out, *encoded as u64, 2);
                out.append(" has no majority");
                out
            },
            ChicagoHError::ArithmeticOverflow => {
                "ChicagoH calibration arithmetic overflow".to_owned()
            },
            ChicagoHError::ConfigKeyMissing { key, start, end } => {
                let mut out: String = "ChicagoH configuration key 0x".to_owned();
                text::push_hex(&mut out, *key as u64, 4);
                out.append(" not found in section 0x");
                text::push_hex(&mut out, *start as u64, 2);
                out.append("..0x");
                text::push_hex(&mut out, *end as u64, 2);
                out
            },
            ChicagoHError::UnexpectedBaseChecksum { expected, actual } => {
                let mut out: String =
                    "ChicagoH base configuration checksum mismatch: expected 0x".to_owned();
                text::push_hex(&mut out, *expected as u64, 4);
                out.append(", calculated 0x");
                text::push_hex(&mut out, *actual as u64, 4);
                out
            },
            ChicagoHError::ConfigChecksumInvariant { expected, actual } => {
                let mut out: String =
                    "ChicagoH configuration u16 sum mismatch: expected 0x".to_owned();
                text::push_hex(&mut out, *expected as u64, 4);
                out.append(", calculated 0x");
                text::push_hex(&mut out, *actual as u64, 4);
                out
            },
            ChicagoHError::UnexpectedDownloadCompletion { command, payload } => {
                let mut out: String =
                    "unexpected 0x90 DownloadConfig completion: command 0x".to_owned();
                text::push_hex(&mut out, *command as u64, 2);
                out.append(", payload ");
                text::push_hex_list(&mut out, payload.as_slice());
                out.append("; expected command 0x90 with payload [01, 00]");
                out
            },
        }
    }
}

proof fn lemma_crc8_shifts_differ(a: u8, b: u8, n: nat)
    requires
        a != b,
    ensures
        crc8_shifts(a, n) != crc8_shifts(b, n),
    decreases n,
{
    if n > 0 {
        lemma_crc8_shifts_differ(a, b, (n - 1) as nat);
        let x = crc8_shifts(a, (n - 1) as nat);
        let y = crc8_shifts(b, (n - 1) as nat);
        assert(x != y ==> (if x & 0x80u8 != 0 {
            (x << 1u8) ^ 0x07u8
        } else {
            x << 1u8
        }) != (if y & 0x80u8 != 0 {
            (y << 1u8) ^ 0x07u8
        } else {
            y << 1u8
        })) by (bit_vector);
    }
}

/// A CRC-8 tells apart any two byte strings that differ in one place.
pub proof fn lemma_crc8_detects_one_byte(a: Seq<u8>, b: Seq<u8>, at: int)
    requires
        a.len() == b.len(),
        0 <= at < a.len(),
        a[at] != b[at],
        forall|k: int| 0 <= k < a.len() && k != at ==> #[trigger] a[k] == b[k],
    ensures
        crc8_spec(a) != crc8_spec(b),
{
    lemma_register_differs(a, b, at);
    let x = crc8_register(a);
    let y = crc8_register(b);
    assert(x != y ==> !x != !y) by (bit_vector);
}

proof fn lemma_register_differs(a: Seq<u8>, b: Seq<u8>, at: int)
    requires
        a.len() == b.len(),
        0 <= at < a.len(),
        a[at] != b[at],
        forall|k: int| 0 <= k < a.len() && k != at ==> #[trigger] a[k] == b[k],
    ensures
        crc8_register(a) != crc8_register(b),
    decreases a.len(),
{
    let x = crc8_register(a.drop_last());
    let y = crc8_register(b.drop_last());
    let p = a.last();
    let q = b.last();
    if at == a.len() - 1 {
        assert(a.drop_last() =~= b.drop_last());
        assert(p != q ==> x ^ p != x ^ q) by (bit_vector);
    } else {
        lemma_register_differs(a.drop_last(), b.drop_last(), at);
        assert(x != y ==> x ^ p != y ^ p) by (bit_vector);
    }
    lemma_crc8_shifts_differ(x ^ p, y ^ q, 8);
}

/// Every byte of the memory is guarded: a memory that is accepted is refused once
/// any single byte of it has changed, be it data or a checksum.
pub proof fn lemma_otp_detects_one_byte(otp: Seq<u8>, other: Seq<u8>, at: int)
    requires
        otp.len() == OTP_LEN,
        other.len() == OTP_LEN,
        otp_error(otp) is None,
        0 <= at < OTP_LEN,
        otp[at] != other[at],
        forall|k: int| 0 <= k < OTP_LEN && k != at ==> #[trigger] otp[k] == other[k],
    ensures
        otp_error(other) is Some,
{
    let cp = cp_bytes(otp);
    let ft = ft_bytes(otp);
    let mt = mt_bytes(otp);
    if at < 0x0b {
        lemma_crc8_detects_one_byte(cp, cp_bytes(other), at);
    } else if at < 0x14 {
        lemma_crc8_detects_one_byte(ft, ft_bytes(other), at - 0x0b);
    } else if at < 0x1c {
        lemma_crc8_detects_one_byte(mt, mt_bytes(other), at - 0x14);
    } else if at < 0x1d {
        lemma_crc8_detects_one_byte(ft, ft_bytes(other), 9);
    } else if at < 0x24 {
        lemma_crc8_detects_one_byte(mt, mt_bytes(other), at - 0x1d + 8);
    } else if at < 0x28 {
        lemma_crc8_detects_one_byte(cp, cp_bytes(other), at - 0x24 + 11);
    } else if at < 0x32 {
        lemma_crc8_detects_one_byte(mt, mt_bytes(other), at - 0x28 + 15);
    } else if at < 0x36 {
        lemma_crc8_detects_one_byte(ft, ft_bytes(other), at - 0x32 + 10);
    } else if at < 0x38 {
        lemma_crc8_detects_one_byte(mt, mt_bytes(other), at - 0x36 + 25);
    } else if at < 0x3c {
        lemma_crc8_detects_one_byte(ft, ft_bytes(other), at - 0x38 + 14);
    } else if at == 0x3e {
        lemma_crc8_detects_one_byte(ft, ft_bytes(other), 18);
    } else {
        assert(cp =~= cp_bytes(other));
        assert(ft =~= ft_bytes(other));
        assert(mt =~= mt_bytes(other));
    }
}

} // verus!
