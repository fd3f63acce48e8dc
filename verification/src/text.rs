//! Decimal and hexadecimal text, comparison of strings, UTF-8 and durations.
use std::time::Duration;
use vstd::prelude::*;

verus! {

/// Character of a hexadecimal digit, in lower case.
pub open spec fn digit_char(d: int) -> char {
    if d == 0 {
        '0'
    } else if d == 1 {
        '1'
    } else if d == 2 {
        '2'
    } else if d == 3 {
        '3'
    } else if d == 4 {
        '4'
    } else if d == 5 {
        '5'
    } else if d == 6 {
        '6'
    } else if d == 7 {
        '7'
    } else if d == 8 {
        '8'
    } else if d == 9 {
        '9'
    } else if d == 10 {
        'a'
    } else if d == 11 {
        'b'
    } else if d == 12 {
        'c'
    } else if d == 13 {
        'd'
    } else if d == 14 {
        'e'
    } else {
        'f'
    }
}

/// Appends one digit.
pub fn push_digit(out: &mut String, d: u8)
    requires
        d < 16,
    ensures
        final(out)@ == old(out)@.push(digit_char(d as int)),
{
    proof {
        reveal_strlit("0");
        reveal_strlit("1");
        reveal_strlit("2");
        reveal_strlit("3");
        reveal_strlit("4");
        reveal_strlit("5");
        reveal_strlit("6");
        reveal_strlit("7");
        reveal_strlit("8");
        reveal_strlit("9");
        reveal_strlit("a");
        reveal_strlit("b");
        reveal_strlit("c");
        reveal_strlit("d");
        reveal_strlit("e");
        reveal_strlit("f");
    }
    let digit: &str = match d {
        0 => "0",
        1 => "1",
        2 => "2",
        3 => "3",
        4 => "4",
        5 => "5",
        6 => "6",
        7 => "7",
        8 => "8",
        9 => "9",
        10 => "a",
        11 => "b",
        12 => "c",
        13 => "d",
        14 => "e",
        _ => "f",
    };
    assert(digit@ =~= seq![digit_char(d as int)]);
    let ghost before = out@;
    out.append(digit);
    assert(out@ =~= before.push(digit_char(d as int)));
}

/// Decimal digits of a number, without leading zeros.
pub open spec fn decimal(n: nat) -> Seq<char>
    decreases n,
{
    if n < 10 {
        seq![digit_char(n as int)]
    } else {
        decimal(n / 10).push(digit_char((n % 10) as int))
    }
}

/// Appends a number in decimal.
pub fn push_decimal(out: &mut String, n: u64)
    ensures
        final(out)@ == old(out)@ + decimal(n as nat),
    decreases n,
{
    let ghost before = out@;
    if n >= 10 {
        push_decimal(out, n / 10);
        push_digit(out, (n % 10) as u8);
        assert(out@ =~= before + decimal(n as nat));
    } else {
        push_digit(out, n as u8);
        assert(out@ =~= before + decimal(n as nat));
    }
}

/// A signed number in decimal.
pub open spec fn signed_decimal(n: int) -> Seq<char> {
    if n < 0 {
        seq!['-'] + decimal((-n) as nat)
    } else {
        decimal(n as nat)
    }
}

/// Appends a signed number in decimal.
pub fn push_signed(out: &mut String, n: i32)
    ensures
        final(out)@ == old(out)@ + signed_decimal(n as int),
{
    let ghost before = out@;
    if n < 0 {
        proof {
            reveal_strlit("-");
        }
        out.append("-");
        push_decimal(out, (-(n as i64)) as u64);
        assert("-"@ =~= seq!['-']);
        assert(out@ =~= before + signed_decimal(n as int));
    } else {
        push_decimal(out, n as u64);
    }
}

/// Hexadecimal digits of a number, with leading zeros up to the given width.
pub open spec fn hex(n: nat, width: nat) -> Seq<char>
    decreases n, width,
{
    if n < 16 && width <= 1 {
        seq![digit_char(n as int)]
    } else {
        hex(
            n / 16,
            if width > 0 {
                (width - 1) as nat
            } else {
                0
            },
        ).push(digit_char((n % 16) as int))
    }
}

/// Appends a number in hexadecimal with at least `width` digits.
pub fn push_hex(out: &mut String, n: u64, width: u32)
    ensures
        final(out)@ == old(out)@ + hex(n as nat, width as nat),
    decreases n, width,
{
    let ghost before = out@;
    if n < 16 && width <= 1 {
        push_digit(out, n as u8);
    } else {
        push_hex(
            out,
            n / 16,
            if width > 0 {
                width - 1
            } else {
                0
            },
        );
        push_digit(out, (n % 16) as u8);
    }
    assert(out@ =~= before + hex(n as nat, width as nat));
}

/// Whether two strings hold the same characters.
pub fn same_text(a: &str, b: &str) -> (same: bool)
    ensures
        same == (a@ == b@),
{
    let count: usize = a.unicode_len();
    if count != b.unicode_len() {
        return false;
    }
    for i in 0..count
        invariant
            count == a@.len(),
            count == b@.len(),
            forall|j: int| 0 <= j < i ==> #[trigger] a@[j] == b@[j],
    {
        if a.get_char(i) != b.get_char(i) {
            assert(a@[i as int] != b@[i as int]);
            return false;
        }
    }
    assert(a@ =~= b@);
    true
}

/// What `std::str::from_utf8` says of bytes that are not UTF-8.
pub uninterp spec fn utf8_error_text(bytes: Seq<u8>) -> Seq<char>;

/// `std::str::from_utf8`: it gives the decoded text of valid UTF-8, and fails on
/// everything else, with an error whose message is a function of the bytes.
/// What that message is on given bytes is left unsaid.
#[verifier::external_body]
pub(crate) fn decode_utf8(bytes: &[u8]) -> (text: Result<&str, String>)
    ensures
        text is Ok <==> vstd::utf8::valid_utf8(bytes@),
        text is Ok ==> text->Ok_0@ == vstd::utf8::decode_utf8(bytes@),
        text is Err ==> text->Err_0@ == utf8_error_text(bytes@),
{
    std::str::from_utf8(bytes).map_err(|error| error.to_string())
}

/// A duration as `std::time::Duration` is formatted with `{:?}`.
pub uninterp spec fn duration_text(duration: Duration) -> Seq<char>;

/// The `Debug` output of `std::time::Duration`: a function of the duration. What
/// it is for a given duration is left unsaid.
#[verifier::external_body]
pub(crate) fn format_duration(duration: Duration) -> (text: String)
    ensures
        text@ == duration_text(duration),
{
    format!("{duration:?}")
}

/// The text without the NUL characters at its end.
pub open spec fn without_trailing_nul(text: Seq<char>) -> Seq<char>
    decreases text.len(),
{
    if text.len() > 0 && text.last() == '\0' {
        without_trailing_nul(text.drop_last())
    } else {
        text
    }
}

/// Copies a text without the NUL characters at its end.
pub fn trim_trailing_nul(text: &str) -> (trimmed: String)
    ensures
        trimmed@ == without_trailing_nul(text@),
{
    let mut end: usize = text.unicode_len();
    assert(text@.take(end as int) =~= text@);
    while end > 0 && text.get_char(end - 1) == '\0'
        invariant
            end <= text@.len(),
            without_trailing_nul(text@.take(end as int)) == without_trailing_nul(text@),
        decreases end,
    {
        assert(text@.take(end as int).drop_last() =~= text@.take(end - 1));
        end = end - 1;
    }
    let kept: &str = text.substring_char(0, end);
    assert(kept@ =~= text@.take(end as int));
    kept.to_owned()
}

/// The first `n` bytes, each as two hexadecimal digits, with a comma and a blank
/// between them.
pub open spec fn hex_items(bytes: Seq<u8>, n: nat) -> Seq<char>
    decreases n,
{
    if n == 0 {
        Seq::empty()
    } else if n == 1 {
        hex(bytes[0] as nat, 2)
    } else {
        hex_items(bytes, (n - 1) as nat) + ", "@ + hex(bytes[n - 1] as nat, 2)
    }
}

/// A bracketed list of bytes.
pub open spec fn hex_list(bytes: Seq<u8>) -> Seq<char> {
    "["@ + hex_items(bytes, bytes.len()) + "]"@
}

/// Appends a bracketed list of bytes.
pub fn push_hex_list(out: &mut String, bytes: &[u8])
    ensures
        final(out)@ == old(out)@ + hex_list(bytes@),
{
    let ghost before = out@;
    out.append("[");
    let ghost opened = out@;
    for i in 0..bytes.len()
        invariant
            out@ == opened + hex_items(bytes@, i as nat),
    {
        if i > 0 {
            out.append(", ");
        }
        push_hex(out, bytes[i] as u64, 2);
        assert(out@ =~= opened + hex_items(bytes@, (i + 1) as nat));
    }
    out.append("]");
    assert(out@ =~= before + hex_list(bytes@));
}

/// `part` occurs in `text` at position `at`.
pub open spec fn occurs_at(text: Seq<char>, part: Seq<char>, at: int) -> bool {
    0 <= at && at + part.len() <= text.len() && text.subrange(at, at + part.len()) == part
}

/// `part` occurs in `text`.
pub open spec fn occurs(text: Seq<char>, part: Seq<char>) -> bool {
    exists|at: int| occurs_at(text, part, at)
}

/// Whether a text holds another one at a position.
fn matches_at(text: &str, part: &str, at: usize) -> (found: bool)
    requires
        at + part@.len() <= text@.len(),
    ensures
        found == occurs_at(text@, part@, at as int),
{
    let count: usize = text.unicode_len();
    let length: usize = part.unicode_len();
    for i in 0..length
        invariant
            count == text@.len(),
            length == part@.len(),
            at + length <= count,
            forall|j: int| 0 <= j < i ==> #[trigger] part@[j] == text@[at + j],
    {
        if text.get_char(at + i) != part.get_char(i) {
            assert(text@.subrange(at as int, at + length)[i as int] != part@[i as int]);
            return false;
        }
    }
    assert(text@.subrange(at as int, at + length) =~= part@);
    true
}

/// Whether a text holds another one.
pub fn contains_text(text: &str, part: &str) -> (found: bool)
    ensures
        found == occurs(text@, part@),
{
    let count: usize = text.unicode_len();
    let length: usize = part.unicode_len();
    if length > count {
        return false;
    }
    let last: usize = count - length;
    for at in 0..last
        invariant
            count == text@.len(),
            length == part@.len(),
            last == count - length,
            forall|before: int| 0 <= before < at ==> !occurs_at(text@, part@, before),
    {
        if matches_at(text, part, at) {
            return true;
        }
    }
    matches_at(text, part, last)
}

/// Hexadecimal digits of bytes, two for each.
pub open spec fn hex_bytes(bytes: Seq<u8>) -> Seq<char>
    decreases bytes.len(),
{
    if bytes.len() == 0 {
        Seq::empty()
    } else {
        hex_bytes(bytes.drop_last()) + hex(bytes.last() as nat, 2)
    }
}

/// Appends bytes in hexadecimal.
pub fn push_hex_bytes(out: &mut String, bytes: &[u8])
    ensures
        final(out)@ == old(out)@ + hex_bytes(bytes@),
{
    let ghost before = out@;
    proof {
        assert(bytes@.take(0) =~= Seq::empty());
        assert(before + hex_bytes(bytes@.take(0)) =~= before);
    }
    for i in 0..bytes.len()
        invariant
            out@ == before + hex_bytes(bytes@.take(i as int)),
    {
        push_hex(out, bytes[i] as u64, 2);
        proof {
            let grown = bytes@.take(i + 1);
            assert(grown.drop_last() =~= bytes@.take(i as int));
            assert(out@ =~= before + hex_bytes(grown));
        }
    }
    assert(bytes@.take(bytes@.len() as int) =~= bytes@);
}

/// The value of a decimal digit.
pub open spec fn digit_value(c: char) -> Option<int> {
    if '0' <= c && c <= '9' {
        Some(c as int - '0' as int)
    } else {
        None
    }
}

/// All characters are decimal digits.
pub open spec fn all_digits(digits: Seq<char>) -> bool {
    forall|i: int| 0 <= i < digits.len() ==> digit_value(#[trigger] digits[i]) is Some
}

/// The number that decimal digits stand for.
pub open spec fn digits_value(digits: Seq<char>) -> int
    decreases digits.len(),
{
    if digits.len() == 0 {
        0
    } else {
        10 * digits_value(digits.drop_last()) + digit_value(digits.last())->Some_0
    }
}

/// The digits of an unsigned number, of which a plus sign is no part.
pub open spec fn unsigned_digits(text: Seq<char>) -> Seq<char> {
    if text.len() > 0 && text[0] == '+' {
        text.skip(1)
    } else {
        text
    }
}

/// The number that a text stands for: one or more decimal digits after an
/// optional plus sign, with a value of at most `usize::MAX`.
pub open spec fn parsed_usize(text: Seq<char>) -> Option<usize> {
    let digits = unsigned_digits(text);
    if digits.len() > 0 && all_digits(digits) && digits_value(digits) <= usize::MAX {
        Some(digits_value(digits) as usize)
    } else {
        None
    }
}

/// Reads an unsigned number.
pub fn parse_usize(text: &str) -> (number: Option<usize>)
    ensures
        number == parsed_usize(text@),
{
    let count: usize = text.unicode_len();
    let start: usize = if count > 0 && text.get_char(0) == '+' {
        1
    } else {
        0
    };
    let ghost digits = unsigned_digits(text@);
    if start == count {
        return None;
    }
    let mut value: usize = 0;
    let mut too_large: bool = false;
    for i in start..count
        invariant
            start <= i <= count,
            count == text@.len(),
            digits == unsigned_digits(text@),
            digits == text@.skip(start as int),
            all_digits(digits.take(i - start)),
            too_large == (digits_value(digits.take(i - start)) > usize::MAX),
            !too_large ==> value == digits_value(digits.take(i - start)),
    {
        let c: char = text.get_char(i);
        let ghost seen = digits.take(i - start);
        let ghost grown = digits.take(i + 1 - start);
        assert(c == digits[i - start]);
        if c < '0' || c > '9' {
            assert(digit_value(digits[i - start]) is None);
            return None;
        }
        let digit: usize = (c as u32 - '0' as u32) as usize;
        proof {
            assert(grown.drop_last() =~= seen);
            assert(grown.last() == c);
            assert forall|j: int| 0 <= j < grown.len() implies digit_value(
                #[trigger] grown[j],
            ) is Some by {
                if j < seen.len() {
                    assert(grown[j] == seen[j]);
                }
            }
        }
        if too_large {
            assert(digits_value(grown) > usize::MAX);
        } else if value > (usize::MAX - digit) / 10 {
            too_large = true;
        } else {
            value = 10 * value + digit;
        }
    }
    assert(digits.take(count - start) =~= digits);
    if too_large {
        None
    } else {
        Some(value)
    }
}

} // verus!
