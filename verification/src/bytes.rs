//! Byte strings: hexadecimal text, fixed lengths, byte order.

use vstd::prelude::*;
use vstd::string::*;

verus! {

/// Whether `c` is one of the hexadecimal digits, in either case.
pub open spec fn is_hex_digit(c: char) -> bool {
    ('0' <= c && c <= '9') || ('a' <= c && c <= 'f') || ('A' <= c && c <= 'F')
}

/// What the hexadecimal digit `c` counts for.
pub open spec fn hex_digit_value(c: char) -> int {
    if c <= '9' {
        c as int - '0' as int
    } else if c <= 'F' {
        c as int - 'A' as int + 10
    } else {
        c as int - 'a' as int + 10
    }
}

/// The hexadecimal digit, in lower case, that counts for `n`.
pub open spec fn hex_digit(n: int) -> char {
    if n < 10 {
        ('0' as int + n) as char
    } else {
        ('a' as int + n - 10) as char
    }
}

/// Whether `text` is an even number of hexadecimal digits.
pub open spec fn is_hex(text: Seq<char>) -> bool {
    &&& text.len() % 2 == 0
    &&& forall|i: int| 0 <= i < text.len() ==> is_hex_digit(#[trigger] text[i])
}

/// The bytes that the digits of `text` stand for, two digits a byte.
pub open spec fn hex_value(text: Seq<char>) -> Seq<u8> {
    Seq::new(
        text.len() / 2,
        |i: int| (16 * hex_digit_value(text[2 * i]) + hex_digit_value(text[2 * i + 1])) as u8,
    )
}

/// The text of `data` in lower-case hexadecimal digits.
pub open spec fn hex_text(data: Seq<u8>) -> Seq<char> {
    Seq::new(
        2 * data.len(),
        |i: int|
            hex_digit(
                if i % 2 == 0 {
                    data[i / 2] as int / 16
                } else {
                    data[i / 2] as int % 16
                },
            ),
    )
}

/// The text of the error that `hex::decode` gives on `text`, where `text` is not hexadecimal.
pub uninterp spec fn hex_error_text(text: Seq<char>) -> Seq<char>;

/// Calls `hex::decode`.
///
/// It succeeds exactly on an even number of hexadecimal digits, in either case, and gives a byte
/// for every two of them. Otherwise it gives an error, of which the text is kept.
#[verifier::external_body]
pub(crate) fn hex_decode(text: &str) -> (r: Result<Vec<u8>, String>)
    ensures
        match r {
            Ok(data) => is_hex(text@) && data@ == hex_value(text@),
            Err(e) => !is_hex(text@) && e@ == hex_error_text(text@),
        },
{
    hex::decode(text).map_err(|e| e.to_string())
}

/// Calls `hex::encode`.
///
/// It writes two lower-case digits for every byte, the higher half first.
#[verifier::external_body]
pub(crate) fn hex_encode(data: &[u8]) -> (text: String)
    ensures
        text@ == hex_text(data@),
{
    hex::encode(data)
}

/// Decoding what was encoded gives the bytes back.
pub proof fn law_hex_round_trip(data: Seq<u8>)
    ensures
        is_hex(hex_text(data)),
        hex_value(hex_text(data)) == data,
{
    let text = hex_text(data);
    assert forall|i: int| 0 <= i < text.len() implies is_hex_digit(#[trigger] text[i]) by {
        assert(0 <= data[i / 2] as int / 16 < 16);
        assert(0 <= data[i / 2] as int % 16 < 16);
    }
    assert forall|i: int| 0 <= i < data.len() implies hex_value(text)[i] == data[i] by {
        let high = data[i] as int / 16;
        let low = data[i] as int % 16;
        assert((2 * i) / 2 == i && (2 * i) % 2 == 0);
        assert((2 * i + 1) / 2 == i && (2 * i + 1) % 2 == 1);
        assert(text[2 * i] == hex_digit(high));
        assert(text[2 * i + 1] == hex_digit(low));
        assert(hex_digit_value(hex_digit(high)) == high);
        assert(hex_digit_value(hex_digit(low)) == low);
    }
    assert(hex_value(text) =~= data);
}

/// `text` without the marks `0x` that it starts with, however many they are.
pub open spec fn without_hex_marks(text: Seq<char>) -> Seq<char>
    decreases text.len(),
{
    if text.len() >= 2 && text[0] == '0' && text[1] == 'x' {
        without_hex_marks(text.subrange(2, text.len() as int))
    } else {
        text
    }
}

/// Drops every mark `0x` at the start of `text`.
pub fn trim_hex_marks(text: &str) -> (r: &str)
    ensures
        r@ == without_hex_marks(text@),
{
    let n: usize = text.unicode_len();
    let mut i: usize = 0;
    assert(text@.subrange(0, n as int) =~= text@);
    while n - i >= 2 && text.get_char(i) == '0' && text.get_char(i + 1) == 'x'
        invariant
            i <= n,
            n == text@.len(),
            without_hex_marks(text@) == without_hex_marks(text@.subrange(i as int, n as int)),
        decreases n - i,
    {
        assert(text@.subrange(i as int, n as int).subrange(2, n - i) =~= text@.subrange(
            i + 2,
            n as int,
        ));
        i = i + 2;
    }
    text.substring_char(i, n)
}

/// Whether two byte strings are the same.
pub fn same_bytes(a: &[u8], b: &[u8]) -> (r: bool)
    ensures
        r == (a@ == b@),
{
    if a.len() != b.len() {
        return false;
    }
    let mut i: usize = 0;
    while i < a.len()
        invariant
            i <= a@.len(),
            a@.len() == b@.len(),
            forall|j: int| 0 <= j < i ==> a@[j] == b@[j],
        decreases a@.len() - i,
    {
        if a[i] != b[i] {
            return false;
        }
        i = i + 1;
    }
    assert(a@ =~= b@);
    true
}

/// The first 32 bytes of `data`, where it has that many.
pub fn first_32(data: &[u8]) -> (r: Option<[u8; 32]>)
    ensures
        r is Some <==> data@.len() >= 32,
        r matches Some(a) ==> a@ == data@.subrange(0, 32),
{
    if data.len() < 32 {
        return None;
    }
    let mut a: [u8; 32] = [0u8; 32];
    let mut i: usize = 0;
    while i < 32
        invariant
            i <= 32,
            data@.len() >= 32,
            forall|j: int| 0 <= j < i ==> a@[j] == data@[j],
        decreases 32 - i,
    {
        a[i] = data[i];
        i = i + 1;
    }
    assert(a@ =~= data@.subrange(0, 32));
    Some(a)
}

/// `data` as 32 bytes, where it is exactly that long.
pub fn exactly_32(data: &[u8]) -> (r: Option<[u8; 32]>)
    ensures
        r is Some <==> data@.len() == 32,
        r matches Some(a) ==> a@ == data@,
{
    if data.len() == 32 {
        assert(data@.subrange(0, 32) =~= data@);
        first_32(data)
    } else {
        None
    }
}

/// The bytes of each of the hashes.
pub open spec fn hash_bytes(hashes: Seq<[u8; 32]>) -> Seq<Seq<u8>> {
    hashes.map_values(|hash: [u8; 32]| hash@)
}

/// The bytes in the other order: hashes are shown and submitted in the order opposite to the one
/// that they are computed in.
pub fn to_little_endian(data: &[u8; 32]) -> (r: [u8; 32])
    ensures
        r@ == data@.reverse(),
        forall|i: int| 0 <= i < 32 ==> #[trigger] r@[i] == data@[31 - i],
{
    let mut a: [u8; 32] = [0u8; 32];
    let mut i: usize = 0;
    while i < 32
        invariant
            i <= 32,
            forall|j: int| 0 <= j < i ==> a@[j] == data@[31 - j],
        decreases 32 - i,
    {
        a[i] = data[31 - i];
        i = i + 1;
    }
    assert(a@ =~= data@.reverse());
    a
}

/// Turning the bytes around twice gives them back.
pub proof fn law_turned_twice(data: Seq<u8>)
    ensures
        data.reverse().reverse() == data,
        forall|i: int| 0 <= i < data.len() ==> data.reverse()[i] == data[data.len() - 1 - i],
{
    assert(data.reverse().reverse() =~= data);
}

/// Marks are dropped one by one, and nothing else is.
pub proof fn law_hex_marks(text: Seq<char>)
    ensures
        without_hex_marks(seq!['0', 'x'] + text) == without_hex_marks(text),
        !(text.len() >= 2 && text[0] == '0' && text[1] == 'x') ==> without_hex_marks(text) == text,
{
    let marked = seq!['0', 'x'] + text;
    assert(marked.subrange(2, marked.len() as int) =~= text);
}

/// Hexadecimal text is read the same behind any mark, and the text of bytes carries none.
pub proof fn law_marked_hex(data: Seq<u8>)
    ensures
        without_hex_marks(hex_text(data)) == hex_text(data),
        without_hex_marks(seq!['0', 'x'] + hex_text(data)) == hex_text(data),
{
    law_hex_round_trip(data);
    law_hex_marks(hex_text(data));
    let text = hex_text(data);
    if text.len() >= 2 {
        assert(is_hex_digit(text[1]));
    }
}

} // verus!
