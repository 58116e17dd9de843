//! Hexadecimal text.
use vstd::prelude::*;

verus! {

/// The lower-case hexadecimal digit of `n`.
pub open spec fn hex_digit(n: int) -> char {
    if n < 10 {
        (48 + n) as char
    } else {
        (87 + n) as char
    }
}

/// Two lower-case hexadecimal digits for each byte.
pub open spec fn hexed(bytes: Seq<u8>) -> Seq<char> {
    Seq::new(
        2 * bytes.len(),
        |i: int|
            if i % 2 == 0 {
                hex_digit(bytes[i / 2] as int / 16)
            } else {
                hex_digit(bytes[i / 2] as int % 16)
            },
    )
}

/// Whether `c` is a hexadecimal digit, in either case.
pub open spec fn is_hex_digit(c: char) -> bool {
    ('0' <= c && c <= '9') || ('a' <= c && c <= 'f') || ('A' <= c && c <= 'F')
}

/// The value of a hexadecimal digit.
pub open spec fn hex_digit_value(c: char) -> int {
    if c <= '9' {
        c as int - 48
    } else if c <= 'F' {
        c as int - 55
    } else {
        c as int - 87
    }
}

/// The bytes that pairs of hexadecimal digits spell.
pub open spec fn unhexed(text: Seq<char>) -> Option<Seq<u8>> {
    if text.len() % 2 == 0 && (forall|i: int| 0 <= i < text.len() ==> is_hex_digit(#[trigger] text[i])) {
        Some(
            Seq::new(
                text.len() / 2,
                |i: int| (16 * hex_digit_value(text[2 * i]) + hex_digit_value(text[2 * i + 1])) as u8,
            ),
        )
    } else {
        None
    }
}

/// Calls `hex::encode`: two lower-case digits for each byte.
#[verifier::external_body]
pub(crate) fn hex_encode(bytes: &[u8]) -> (s: String)
    ensures
        s@ == hexed(bytes@),
{
    hex::encode(bytes)
}

/// Calls `hex::decode`: the bytes that an even number of digits in either case
/// spell, and nothing for any other text.
#[verifier::external_body]
pub(crate) fn hex_decode(text: &str) -> (r: Option<Vec<u8>>)
    ensures
        match r {
            Some(bytes) => unhexed(text@) == Some(bytes@),
            None => unhexed(text@) is None,
        },
{
    hex::decode(text).ok()
}

/// Bytes that are written in hexadecimal read back.
pub proof fn law_hex_reads_back(bytes: Seq<u8>)
    ensures
        unhexed(hexed(bytes)) == Some(bytes),
{
    let t = hexed(bytes);
    assert forall|i: int| 0 <= i < t.len() implies is_hex_digit(#[trigger] t[i]) by {
        let b = bytes[i / 2] as int;
        assert(0 <= b / 16 < 16 && 0 <= b % 16 < 16);
    }
    assert(t.len() % 2 == 0);
    let u = unhexed(t)->Some_0;
    assert forall|i: int| 0 <= i < bytes.len() implies u[i] == bytes[i] by {
        let b = bytes[i] as int;
        assert((2 * i) / 2 == i && (2 * i + 1) / 2 == i);
        assert((2 * i) % 2 == 0 && (2 * i + 1) % 2 == 1);
        assert(t[2 * i] == hex_digit(b / 16));
        assert(t[2 * i + 1] == hex_digit(b % 16));
        assert(0 <= b / 16 < 16 && 0 <= b % 16 < 16);
        assert(16 * (b / 16) + b % 16 == b);
    }
    assert(u =~= bytes);
}

/// Either case of a digit spells the same byte; text of odd length or with any
/// other character spells none.
pub proof fn law_what_hexadecimal_text_spells(text: Seq<char>, i: int)
    ensures
        text.len() % 2 == 1 ==> unhexed(text) is None,
        0 <= i < text.len() && !('0' <= text[i] <= '9') && !('a' <= text[i] <= 'f') && !('A'
            <= text[i] <= 'F') ==> unhexed(text) is None,
        unhexed(text) matches Some(b) ==> b.len() == text.len() / 2,
        forall|c: char|
            #![trigger hex_digit_value(c)]
            'a' <= c <= 'f' ==> hex_digit_value(c) == hex_digit_value(((c as u32 - 32) as u8) as char),
{
}

/// Each byte takes two characters, its upper half first.
pub proof fn law_hexadecimal_text_of_bytes(bytes: Seq<u8>, k: int)
    requires
        0 <= k < bytes.len(),
    ensures
        hexed(bytes).len() == 2 * bytes.len(),
        hex_digit_value(hexed(bytes)[2 * k]) == bytes[k] as int / 16,
        hex_digit_value(hexed(bytes)[2 * k + 1]) == bytes[k] as int % 16,
{
    let b = bytes[k] as int;
    assert((2 * k) / 2 == k && (2 * k + 1) / 2 == k);
    assert((2 * k) % 2 == 0 && (2 * k + 1) % 2 == 1);
    assert(hexed(bytes)[2 * k] == hex_digit(b / 16));
    assert(hexed(bytes)[2 * k + 1] == hex_digit(b % 16));
    assert(0 <= b / 16 < 16 && 0 <= b % 16 < 16);
}

} // verus!
