//! The contract's encoding of a list of byte strings.

use alloy::primitives::Bytes;
use alloy::sol_types::SolValue;
use vstd::prelude::*;
use vstd::string::*;

verus! {

/// Whether `data` holds a word, that is 32 bytes, from `at` on.
pub open spec fn has_word(data: Seq<u8>, at: int) -> bool {
    0 <= at && at + 32 <= data.len()
}

/// The number in the word at `at`, highest byte first: its lowest 64 bits, as far as they fit in a
/// `usize`.
#[verifier::opaque]
pub open spec fn number_at(data: Seq<u8>, at: int) -> int {
    (data[at + 24] * 0x1_00_00_00_00_00_00_00 + data[at + 25] * 0x1_00_00_00_00_00_00 + data[at
        + 26] * 0x1_00_00_00_00_00 + data[at + 27] * 0x1_00_00_00_00 + data[at + 28]
        * 0x1_00_00_00 + data[at + 29] * 0x1_00_00 + data[at + 30] * 0x1_00 + data[at + 31]) % (
    usize::MAX + 1)
}

/// Where the list's entries begin: behind the word with their number, to which the first word
/// points.
pub open spec fn list_body(data: Seq<u8>) -> int {
    number_at(data, 0) + 32
}

/// How many entries the list has.
pub open spec fn list_len(data: Seq<u8>) -> int {
    number_at(data, number_at(data, 0))
}

/// Where the `i`-th byte string begins, with its length: its entry points to it.
pub open spec fn string_at(data: Seq<u8>, i: int) -> int {
    list_body(data) + number_at(data, list_body(data) + 32 * i)
}

/// Whether the `i`-th entry and the byte string that it points to lie within `data`.
pub open spec fn has_string(data: Seq<u8>, i: int) -> bool {
    &&& has_word(data, list_body(data) + 32 * i)
    &&& has_word(data, string_at(data, i))
    &&& string_at(data, i) + 32 + number_at(data, string_at(data, i)) <= data.len()
}

/// Whether `data` encodes a list of byte strings.
pub open spec fn is_byte_strings(data: Seq<u8>) -> bool {
    &&& has_word(data, 0)
    &&& has_word(data, number_at(data, 0))
    &&& forall|i: int| 0 <= i < list_len(data) ==> #[trigger] has_string(data, i)
}

/// The byte strings that `data` encodes.
pub open spec fn byte_strings(data: Seq<u8>) -> Seq<Seq<u8>> {
    Seq::new(
        list_len(data) as nat,
        |i: int|
            data.subrange(
                string_at(data, i) + 32,
                string_at(data, i) + 32 + number_at(data, string_at(data, i)),
            ),
    )
}

/// Whether the byte string of the `i`-th entry, if there is one, has a length that leaves room for
/// the word that it stands in.
pub open spec fn length_fits(data: Seq<u8>, i: int) -> bool {
    has_word(data, list_body(data) + 32 * i) && has_word(data, string_at(data, i)) ==> number_at(
        data,
        string_at(data, i),
    ) + 32 <= usize::MAX
}

/// Whether the lengths of all the byte strings leave room for the words that they stand in.
pub open spec fn lengths_fit(data: Seq<u8>) -> bool {
    has_word(data, 0) && has_word(data, number_at(data, 0)) ==> forall|i: int|
        0 <= i < list_len(data) ==> #[trigger] length_fits(data, i)
}

/// The bytes of each of the strings.
pub open spec fn string_bytes(strings: Seq<Vec<u8>>) -> Seq<Seq<u8>> {
    strings.map_values(|string: Vec<u8>| string@)
}

/// Calls `abi_decode` of `alloy::sol_types::SolValue` for a `Vec<Bytes>`, without validation.
///
/// It succeeds exactly where the offsets and lengths lead to byte strings within `data`; what lies
/// between them is not looked at. A length within 32 of the greatest `usize` can overflow inside
/// the decoder and is left out. Of the error nothing is said but that there is one: its text can
/// depend on how much memory could be had.
#[verifier::external_body]
pub(crate) fn decode_byte_strings(data: &[u8]) -> (r: Result<Vec<Vec<u8>>, String>)
    requires
        lengths_fit(data@),
    ensures
        match r {
            Ok(strings) => is_byte_strings(data@) && string_bytes(strings@) == byte_strings(data@),
            Err(_) => !is_byte_strings(data@),
        },
{
    let strings = <Vec<Bytes> as SolValue>::abi_decode(data, false).map_err(|e| e.to_string())?;
    Ok(strings.into_iter().map(|string| string.to_vec()).collect())
}

/// The number in the word at `at`.
fn read_number(data: &[u8], at: usize) -> (n: usize)
    requires
        has_word(data@, at as int),
    ensures
        n == number_at(data@, at as int),
{
    assert(at + 32 <= data.len());
    reveal(number_at);
    let low: u128 = data[at + 24] as u128 * 0x1_00_00_00_00_00_00_00 + data[at + 25] as u128
        * 0x1_00_00_00_00_00_00 + data[at + 26] as u128 * 0x1_00_00_00_00_00 + data[at
        + 27] as u128 * 0x1_00_00_00_00 + data[at + 28] as u128 * 0x1_00_00_00 + data[at
        + 29] as u128 * 0x1_00_00 + data[at + 30] as u128 * 0x1_00 + data[at + 31] as u128;
    (low % (usize::MAX as u128 + 1)) as usize
}

/// Whether the lengths of all the byte strings leave room for the words that they stand in.
pub fn check_lengths(data: &[u8]) -> (r: bool)
    ensures
        r == lengths_fit(data@),
{
    if data.len() < 32 {
        return true;
    }
    let head: usize = read_number(data, 0);
    if head > data.len() - 32 {
        return true;
    }
    let body: usize = head + 32;
    let count: usize = read_number(data, head);
    let mut i: usize = 0;
    while i < count && i < (data.len() - body) / 32
        invariant
            has_word(data@, 0),
            has_word(data@, head as int),
            head == number_at(data@, 0),
            body == list_body(data@),
            body <= data@.len(),
            count == list_len(data@),
            i <= (data@.len() - body) / 32,
            forall|j: int| 0 <= j < i ==> #[trigger] length_fits(data@, j),
        decreases count - i,
    {
        let entry: usize = body + 32 * i;
        let offset: usize = read_number(data, entry);
        if offset <= data.len() - body && data.len() - body - offset >= 32 {
            let length: usize = read_number(data, body + offset);
            if length > usize::MAX - 32 {
                assert(!length_fits(data@, i as int));
                return false;
            }
        }
        assert(length_fits(data@, i as int));
        i = i + 1;
    }
    assert forall|j: int| 0 <= j < count implies #[trigger] length_fits(data@, j) by {
        if j >= i {
            assert(!has_word(data@, body + 32 * j));
        }
    }
    true
}

/// A number in a word fits in a `usize`.
proof fn lemma_number_bounded(data: Seq<u8>, at: int)
    ensures
        0 <= number_at(data, at) <= usize::MAX,
{
    reveal(number_at);
}

/// Where a length does not leave room for the word that it stands in, the data are no list: the
/// byte string would not lie within them.
proof fn lemma_unfit(data: Seq<u8>)
    requires
        !lengths_fit(data),
        data.len() <= usize::MAX,
    ensures
        !is_byte_strings(data),
{
    lemma_number_bounded(data, 0);
    let i = choose|i: int| 0 <= i < list_len(data) && !#[trigger] length_fits(data, i);
    lemma_number_bounded(data, list_body(data) + 32 * i);
    assert(!has_string(data, i));
}

/// Reads a list of byte strings, or says why it cannot be read. Of the error's text nothing is
/// said.
pub fn read_byte_strings(data: &[u8]) -> (r: Result<Vec<Vec<u8>>, String>)
    ensures
        match r {
            Ok(strings) => is_byte_strings(data@) && string_bytes(strings@) == byte_strings(data@),
            Err(_) => !is_byte_strings(data@),
        },
{
    if check_lengths(data) {
        decode_byte_strings(data)
    } else {
        proof {
            assert(data@.len() == data.len());
            lemma_unfit(data@);
        }
        Err("ABI decoding failed: buffer overrun while deserializing".to_owned())
    }
}

/// A word that holds the number `n`, which is below two to the power 64, highest byte first.
#[verifier::opaque]
pub open spec fn word(n: nat) -> Seq<u8> {
    Seq::new(24, |k: int| 0u8) + seq![
        (n / 0x1_00_00_00_00_00_00_00 % 0x100) as u8,
        (n / 0x1_00_00_00_00_00_00 % 0x100) as u8,
        (n / 0x1_00_00_00_00_00 % 0x100) as u8,
        (n / 0x1_00_00_00_00 % 0x100) as u8,
        (n / 0x1_00_00_00 % 0x100) as u8,
        (n / 0x1_00_00 % 0x100) as u8,
        (n / 0x1_00 % 0x100) as u8,
        (n % 0x100) as u8,
    ]
}

/// A byte string as it is encoded: its length, its bytes, and zeros up to a whole word.
pub open spec fn encoded_string(string: Seq<u8>) -> Seq<u8> {
    word(string.len()) + string + Seq::new(
        ((32 - string.len() % 32) % 32) as nat,
        |k: int| 0u8,
    )
}

/// The byte strings as they are encoded, one behind the other.
pub open spec fn encoded_strings(strings: Seq<Seq<u8>>) -> Seq<u8>
    decreases strings.len(),
{
    if strings.len() == 0 {
        Seq::empty()
    } else {
        encoded_strings(strings.drop_last()) + encoded_string(strings.last())
    }
}

/// The entries of the list: for each byte string how far behind the first entry it begins.
pub open spec fn encoded_entries(strings: Seq<Seq<u8>>) -> Seq<u8> {
    Seq::new(
        32 * strings.len(),
        |k: int|
            word(
                (32 * strings.len() + encoded_strings(strings.take(k / 32)).len()) as nat,
            )[k % 32],
    )
}

/// The contract's encoding of a list of byte strings: where the list begins, how many entries it
/// has, the entries, and the byte strings.
pub open spec fn encoding(strings: Seq<Seq<u8>>) -> Seq<u8> {
    word(32) + word(strings.len()) + encoded_entries(strings) + encoded_strings(strings)
}

/// A word is 32 bytes long.
proof fn lemma_word_len(n: nat)
    ensures
        word(n).len() == 32,
{
    reveal(word);
}

/// The number in a word is the one that was put there.
proof fn lemma_word(data: Seq<u8>, at: int, n: nat)
    requires
        has_word(data, at),
        data.subrange(at, at + 32) == word(n),
        n <= usize::MAX,
    ensures
        number_at(data, at) == n,
{
    reveal(number_at);
    reveal(word);
    let w = word(n);
    assert forall|k: int| 0 <= k < 32 implies #[trigger] data[at + k] == w[k] by {
        assert(data.subrange(at, at + 32)[k] == data[at + k]);
    }
    assert(data[at + 24] == w[24] && data[at + 25] == w[25] && data[at + 26] == w[26] && data[at
        + 27] == w[27] && data[at + 28] == w[28] && data[at + 29] == w[29] && data[at + 30] == w[30]
        && data[at + 31] == w[31]);
    let n0 = n / 0x1_00;
    let n1 = n0 / 0x1_00;
    let n2 = n1 / 0x1_00;
    let n3 = n2 / 0x1_00;
    let n4 = n3 / 0x1_00;
    let n5 = n4 / 0x1_00;
    let n6 = n5 / 0x1_00;
    assert(n1 == n / 0x1_00_00);
    assert(n2 == n / 0x1_00_00_00);
    assert(n3 == n / 0x1_00_00_00_00);
    assert(n4 == n / 0x1_00_00_00_00_00);
    assert(n5 == n / 0x1_00_00_00_00_00_00);
    assert(n6 == n / 0x1_00_00_00_00_00_00_00);
    assert(n6 < 0x100);
}

/// Each byte string stands, as it is encoded, behind those before it.
proof fn lemma_encoded_at(strings: Seq<Seq<u8>>, i: int)
    requires
        0 <= i < strings.len(),
    ensures
        ({
            let at = encoded_strings(strings.take(i)).len();
            let own = encoded_string(strings[i]);
            &&& at + own.len() <= encoded_strings(strings).len()
            &&& encoded_strings(strings).subrange(at as int, (at + own.len()) as int) == own
        }),
    decreases strings.len(),
{
    let rest = strings.drop_last();
    let before = encoded_strings(rest);
    let own = encoded_string(strings[i]);
    if i == strings.len() - 1 {
        assert(strings.take(i) =~= rest);
        assert(encoded_strings(strings).subrange(
            before.len() as int,
            (before.len() + own.len()) as int,
        ) =~= own);
    } else {
        lemma_encoded_at(rest, i);
        assert(rest.take(i) =~= strings.take(i));
        let at = encoded_strings(strings.take(i)).len() as int;
        assert(encoded_strings(strings).subrange(at, at + own.len()) =~= before.subrange(
            at,
            at + own.len(),
        ));
    }
}

/// The first two words of an encoding, and how long it is.
proof fn lemma_encoding_head(strings: Seq<Seq<u8>>)
    requires
        encoding(strings).len() <= usize::MAX,
    ensures
        encoding(strings).len() == 64 + 32 * strings.len() + encoded_strings(strings).len(),
        number_at(encoding(strings), 0) == 32,
        number_at(encoding(strings), 32) == strings.len(),
{
    let data = encoding(strings);
    lemma_word_len(32);
    lemma_word_len(strings.len());
    assert(data.subrange(0, 32) =~= word(32));
    lemma_word(data, 0, 32);
    assert(data.subrange(32, 64) =~= word(strings.len()));
    lemma_word(data, 32, strings.len());
}

/// The entry of a byte string leads to where it is encoded.
proof fn lemma_encoding_entry(strings: Seq<Seq<u8>>, i: int)
    requires
        encoding(strings).len() <= usize::MAX,
        0 <= i < strings.len(),
    ensures
        number_at(encoding(strings), 64 + 32 * i) == 32 * strings.len() + encoded_strings(
            strings.take(i),
        ).len(),
{
    let data = encoding(strings);
    let entry = 64 + 32 * i;
    let behind = (32 * strings.len() + encoded_strings(strings.take(i)).len()) as nat;
    lemma_word_len(32);
    lemma_word_len(strings.len());
    lemma_word_len(behind);
    lemma_encoding_head(strings);
    lemma_encoded_at(strings, i);
    assert forall|k: int| 0 <= k < 32 implies #[trigger] data.subrange(entry, entry + 32)[k] == word(
        behind,
    )[k] by {
        assert((32 * i + k) / 32 == i && (32 * i + k) % 32 == k);
        assert(data[entry + k] == encoded_entries(strings)[32 * i + k]);
    }
    assert(data.subrange(entry, entry + 32) =~= word(behind));
    lemma_word(data, entry, behind);
}

/// Where a byte string is encoded, its length and its bytes are read.
proof fn lemma_encoding_string(strings: Seq<Seq<u8>>, i: int)
    requires
        encoding(strings).len() <= usize::MAX,
        0 <= i < strings.len(),
    ensures
        ({
            let data = encoding(strings);
            let start = 64 + 32 * strings.len() + encoded_strings(strings.take(i)).len() as int;
            &&& start + 32 + strings[i].len() <= data.len()
            &&& number_at(data, start) == strings[i].len()
            &&& data.subrange(start + 32, start + 32 + strings[i].len()) == strings[i]
        }),
{
    let data = encoding(strings);
    let at = encoded_strings(strings.take(i)).len();
    let start = (64 + 32 * strings.len() + at) as int;
    let own = encoded_string(strings[i]);
    lemma_word_len(32);
    lemma_word_len(strings.len());
    lemma_word_len(strings[i].len());
    lemma_encoding_head(strings);
    lemma_encoded_at(strings, i);
    let stored = data.subrange(start, start + own.len());
    assert(stored =~= encoded_strings(strings).subrange(at as int, (at + own.len()) as int));
    assert(data.subrange(start, start + 32) =~= stored.subrange(0, 32));
    assert(own.subrange(0, 32) =~= word(strings[i].len()));
    lemma_word(data, start, strings[i].len());
    assert(data.subrange(start + 32, start + 32 + strings[i].len()) =~= stored.subrange(
        32,
        32 + strings[i].len() as int,
    ));
    assert(own.subrange(32, 32 + strings[i].len() as int) =~= strings[i]);
}

/// What was encoded is read back: the encoding of a list of byte strings, as long as a length can
/// be, is a list of byte strings, and of these.
pub proof fn law_encoding(strings: Seq<Seq<u8>>)
    requires
        encoding(strings).len() <= usize::MAX,
    ensures
        is_byte_strings(encoding(strings)),
        byte_strings(encoding(strings)) == strings,
{
    let data = encoding(strings);
    lemma_encoding_head(strings);
    assert(list_len(data) == strings.len());
    assert forall|i: int| 0 <= i < strings.len() implies #[trigger] has_string(data, i) by {
        lemma_encoding_entry(strings, i);
        lemma_encoding_string(strings, i);
    }
    assert forall|i: int| 0 <= i < strings.len() implies #[trigger] byte_strings(data)[i]
        == strings[i] by {
        lemma_encoding_entry(strings, i);
        lemma_encoding_string(strings, i);
    }
    assert(byte_strings(data) =~= strings);
}

} // verus!
