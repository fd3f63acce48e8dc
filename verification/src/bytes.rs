//! Little-endian words in byte strings.
use vstd::prelude::*;

verus! {

/// The four bytes of a word, least significant first.
pub open spec fn le32(word: u32) -> Seq<u8> {
    seq![
        (word % 256) as u8,
        ((word / 256) % 256) as u8,
        ((word / 65536) % 256) as u8,
        (word / 16777216) as u8,
    ]
}

/// The word whose little-endian bytes start at position `at`.
pub open spec fn le32_at(data: Seq<u8>, at: int) -> int {
    data[at] + data[at + 1] * 256 + data[at + 2] * 65536 + data[at + 3] * 16777216
}

/// Reading a word back gives the word that was written.
pub proof fn lemma_le32_round_trip(word: u32, data: Seq<u8>, at: int)
    requires
        0 <= at,
        at + 4 <= data.len(),
        data.subrange(at, at + 4) == le32(word),
    ensures
        le32_at(data, at) == word,
{
    let s = data.subrange(at, at + 4);
    assert(s[0] == data[at] && s[1] == data[at + 1] && s[2] == data[at + 2] && s[3] == data[at + 3]);
}

/// The four bytes of a word, least significant first.
pub fn le32_bytes(word: u32) -> (bytes: [u8; 4])
    ensures
        bytes@ == le32(word),
{
    let bytes: [u8; 4] = [
        (word % 256) as u8,
        ((word / 256) % 256) as u8,
        ((word / 65536) % 256) as u8,
        (word / 16777216) as u8,
    ];
    assert(bytes@ =~= le32(word));
    bytes
}

/// Appends a word, least significant byte first.
pub fn push_le32(out: &mut Vec<u8>, word: u32)
    ensures
        final(out)@ == old(out)@ + le32(word),
{
    out.push((word % 256) as u8);
    out.push(((word / 256) % 256) as u8);
    out.push(((word / 65536) % 256) as u8);
    out.push((word / 16777216) as u8);
    assert(out@ =~= old(out)@ + le32(word));
}

/// Reads the little-endian word at position `at`.
pub fn read_le32(data: &[u8], at: usize) -> (word: u32)
    requires
        at + 4 <= data@.len(),
    ensures
        word == le32_at(data@, at as int),
{
    data[at] as u32 + data[at + 1] as u32 * 256 + data[at + 2] as u32 * 65536 + data[at + 3] as u32
        * 16777216
}

/// Appends a byte string.
pub fn push_all(out: &mut Vec<u8>, data: &[u8])
    ensures
        final(out)@ == old(out)@ + data@,
{
    let ghost before = out@;
    for i in 0..data.len()
        invariant
            out@ == before + data@.take(i as int),
    {
        out.push(data[i]);
        assert(data@.take(i + 1) =~= data@.take(i as int).push(data@[i as int]));
        assert(out@ =~= before + data@.take(i + 1));
    }
    assert(data@.take(data@.len() as int) =~= data@);
}

/// Byte `k` of a 64-bit word, counted from the least significant.
pub open spec fn le64_byte_spec(word: u64, k: int) -> u8 {
    if k == 0 {
        (word % 0x100) as u8
    } else if k == 1 {
        ((word / 0x100) % 0x100) as u8
    } else if k == 2 {
        ((word / 0x1_0000) % 0x100) as u8
    } else if k == 3 {
        ((word / 0x100_0000) % 0x100) as u8
    } else if k == 4 {
        ((word / 0x1_0000_0000) % 0x100) as u8
    } else if k == 5 {
        ((word / 0x100_0000_0000) % 0x100) as u8
    } else if k == 6 {
        ((word / 0x1_0000_0000_0000) % 0x100) as u8
    } else {
        (word / 0x100_0000_0000_0000) as u8
    }
}

pub fn le64_byte(word: u64, k: usize) -> (byte: u8)
    requires
        k < 8,
    ensures
        byte == le64_byte_spec(word, k as int),
{
    if k == 0 {
        (word % 0x100) as u8
    } else if k == 1 {
        ((word / 0x100) % 0x100) as u8
    } else if k == 2 {
        ((word / 0x1_0000) % 0x100) as u8
    } else if k == 3 {
        ((word / 0x100_0000) % 0x100) as u8
    } else if k == 4 {
        ((word / 0x1_0000_0000) % 0x100) as u8
    } else if k == 5 {
        ((word / 0x100_0000_0000) % 0x100) as u8
    } else if k == 6 {
        ((word / 0x1_0000_0000_0000) % 0x100) as u8
    } else {
        (word / 0x100_0000_0000_0000) as u8
    }
}

/// Writing a word that was read gives back its bytes.
pub proof fn lemma_le32_of_read(data: Seq<u8>, at: int)
    requires
        0 <= at,
        at + 4 <= data.len(),
    ensures
        0 <= le32_at(data, at) <= u32::MAX,
        le32(le32_at(data, at) as u32) == data.subrange(at, at + 4),
{
    let word = le32_at(data, at) as u32;
    let (b0, b1, b2, b3) = (data[at], data[at + 1], data[at + 2], data[at + 3]);
    assert(word % 256 == b0);
    assert(word / 256 == b1 + b2 * 256 + b3 * 65536);
    assert((word / 256) % 256 == b1);
    assert(word / 65536 == b2 + b3 * 256);
    assert((word / 65536) % 256 == b2);
    assert(word / 16777216 == b3);
    assert(le32(word) =~= data.subrange(at, at + 4));
}

} // verus!
