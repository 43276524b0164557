//! What the exchange contract's helpers give: the vaults of a reservation, and the Bitcoin headers
//! that the contract knows.

use vstd::prelude::*;
use vstd::string::*;

use crate::abi::{
    byte_strings, encoding, is_byte_strings, law_encoding, read_byte_strings, string_bytes,
};
use crate::bytes::{exactly_32, hash_bytes};
use crate::constants::HEADER_LOOKBACK_LIMIT;
use crate::error::{ErrorView, HypernodeError};
use crate::store::{ActiveReservations, DepositVault, SwapReservation};
use crate::text::{colon_joined, join_with_colon};
use crate::u256::U256;

verus! {

/// Whether every one of the byte strings is as long as a hash.
pub open spec fn all_hashes(strings: Seq<Seq<u8>>) -> bool {
    forall|i: int| 0 <= i < strings.len() ==> (#[trigger] strings[i]).len() == 32
}

/// The byte strings as hashes, if each is as long as one.
fn to_hashes(strings: &[Vec<u8>]) -> (r: Option<Vec<[u8; 32]>>)
    ensures
        match r {
            Some(hashes) => {
                &&& all_hashes(string_bytes(strings@))
                &&& hash_bytes(hashes@) == string_bytes(strings@)
            },
            None => !all_hashes(string_bytes(strings@)),
        },
{
    let ghost views = string_bytes(strings@);
    let mut hashes: Vec<[u8; 32]> = Vec::new();
    let mut i: usize = 0;
    while i < strings.len()
        invariant
            i <= strings@.len(),
            views == string_bytes(strings@),
            hashes@.len() == i,
            forall|j: int| 0 <= j < i ==> (#[trigger] hashes@[j])@ == views[j],
        decreases strings@.len() - i,
    {
        match exactly_32(strings[i].as_slice()) {
            Some(hash) => hashes.push(hash),
            None => {
                assert(views[i as int].len() != 32);
                return None;
            },
        }
        i = i + 1;
    }
    assert(hash_bytes(hashes@) =~= views);
    assert forall|j: int| 0 <= j < views.len() implies (#[trigger] views[j]).len() == 32 by {
        assert(hashes@[j]@ == views[j]);
    }
    Some(hashes)
}

/// Whether `encoded_blocks`, if they are a list of byte strings at all, are one of hashes.
pub open spec fn holds_hashes(encoded_blocks: Seq<u8>) -> bool {
    is_byte_strings(encoded_blocks) ==> all_hashes(byte_strings(encoded_blocks))
}

/// Whether `encoded_blocks`, if they are a list of byte strings at all, are one of hashes.
pub fn check_block_hashes(encoded_blocks: &[u8]) -> (r: bool)
    ensures
        r == holds_hashes(encoded_blocks@),
{
    match read_byte_strings(encoded_blocks) {
        Ok(strings) => to_hashes(strings.as_slice()).is_some(),
        Err(_) => true,
    }
}

/// Decodes the list of hashes that the contract's aggregator of headers gives.
pub fn decode_block_hashes(encoded_blocks: Vec<u8>) -> (r: Result<Vec<[u8; 32]>, HypernodeError>)
    requires
        holds_hashes(encoded_blocks@),
    ensures
        match r {
            Ok(hashes) => {
                &&& is_byte_strings(encoded_blocks@)
                &&& hash_bytes(hashes@) == byte_strings(encoded_blocks@)
            },
            Err(e) => {
                &&& !is_byte_strings(encoded_blocks@)
                &&& exists|text: Seq<char>|
                    e@ == ErrorView::Decode(
                        #[trigger] colon_joined("Failed to decode block hashes"@, text),
                    )
            },
        },
{
    match read_byte_strings(encoded_blocks.as_slice()) {
        Ok(strings) => match to_hashes(strings.as_slice()) {
            Some(hashes) => Ok(hashes),
            None => {
                assert(false);
                Ok(Vec::new())
            },
        },
        Err(e) => Err(
            HypernodeError::Decode(join_with_colon("Failed to decode block hashes", e.as_str())),
        ),
    }
}

/// The hashes that were encoded are decoded: the contract's encoding of a list of hashes holds
/// hashes, and a list of hashes with the bytes that are read from it is the list itself, zero
/// hashes included.
pub proof fn law_block_hashes(hashes: Seq<[u8; 32]>, decoded: Seq<[u8; 32]>)
    requires
        encoding(hash_bytes(hashes)).len() <= usize::MAX,
    ensures
        is_byte_strings(encoding(hash_bytes(hashes))),
        holds_hashes(encoding(hash_bytes(hashes))),
        hash_bytes(decoded) == byte_strings(encoding(hash_bytes(hashes))) <==> decoded == hashes,
{
    law_encoding(hash_bytes(hashes));
    if hash_bytes(decoded) == hash_bytes(hashes) {
        assert(decoded.len() == hash_bytes(decoded).len());
        assert forall|i: int| 0 <= i < hashes.len() implies decoded[i] == hashes[i] by {
            assert(hash_bytes(decoded)[i] == decoded[i]@);
            assert(hash_bytes(hashes)[i] == hashes[i]@);
            assert(decoded[i] =~= hashes[i]);
        }
        assert(decoded =~= hashes);
    }
}

/// What was encoded is decoded byte by byte: the `i`-th hash has the bytes of the `i`-th string, and
/// so has the `i`-th vault, however long it is.
pub proof fn law_decoded_bytes(
    strings: Seq<Seq<u8>>,
    hashes: Seq<[u8; 32]>,
    vaults: Seq<Vec<u8>>,
)
    requires
        encoding(strings).len() <= usize::MAX,
    ensures
        is_byte_strings(encoding(strings)),
        holds_hashes(encoding(strings)) <==> forall|i: int|
            0 <= i < strings.len() ==> (#[trigger] strings[i]).len() == 32,
        hash_bytes(hashes) == byte_strings(encoding(strings)) ==> {
            &&& hashes.len() == strings.len()
            &&& forall|i: int| 0 <= i < strings.len() ==> (#[trigger] hashes[i])@ == strings[i]
        },
        string_bytes(vaults) == byte_strings(encoding(strings)) ==> {
            &&& vaults.len() == strings.len()
            &&& forall|i: int| 0 <= i < strings.len() ==> (#[trigger] vaults[i])@ == strings[i]
        },
{
    law_encoding(strings);
    assert(hash_bytes(hashes).len() == hashes.len());
    assert(string_bytes(vaults).len() == vaults.len());
    if hash_bytes(hashes) == strings {
        assert forall|i: int| 0 <= i < strings.len() implies (#[trigger] hashes[i])@
            == strings[i] by {
            assert(hash_bytes(hashes)[i] == hashes[i]@);
        }
    }
    if string_bytes(vaults) == strings {
        assert forall|i: int| 0 <= i < strings.len() implies (#[trigger] vaults[i])@
            == strings[i] by {
            assert(string_bytes(vaults)[i] == vaults[i]@);
        }
    }
}

/// Splits the list of encoded vaults that the contract's aggregator of vaults gives.
pub fn split_vaults(encoded_vaults: &[u8]) -> (r: Result<Vec<Vec<u8>>, HypernodeError>)
    ensures
        match r {
            Ok(strings) => {
                &&& is_byte_strings(encoded_vaults@)
                &&& string_bytes(strings@) == byte_strings(encoded_vaults@)
            },
            Err(e) => {
                &&& !is_byte_strings(encoded_vaults@)
                &&& e@ == ErrorView::Decode("Failed to decode vault byte array"@)
            },
        },
{
    match read_byte_strings(encoded_vaults) {
        Ok(strings) => Ok(strings),
        Err(_) => Err(HypernodeError::Decode("Failed to decode vault byte array".to_owned())),
    }
}

/// Takes the vaults that were decoded one by one together. The first that could not be decoded
/// decides.
pub fn collect_vaults(decoded: Vec<Result<DepositVault, String>>) -> (r: Result<
    Vec<DepositVault>,
    HypernodeError,
>)
    ensures
        match r {
            Ok(vaults) => {
                &&& vaults@.len() == decoded@.len()
                &&& forall|i: int|
                    0 <= i < decoded@.len() ==> #[trigger] decoded@[i] == Ok::<
                        DepositVault,
                        String,
                    >(vaults@[i])
            },
            Err(e) => exists|i: int|
                {
                    &&& 0 <= i < decoded@.len()
                    &&& #[trigger] decoded@[i] matches Err(text)
                    &&& e@ == ErrorView::Decode(
                        colon_joined("Failed to decode deposit vault"@, text@),
                    )
                    &&& forall|j: int| 0 <= j < i ==> (#[trigger] decoded@[j]) is Ok
                },
        },
{
    let mut vaults: Vec<DepositVault> = Vec::new();
    let mut i: usize = 0;
    while i < decoded.len()
        invariant
            i <= decoded@.len(),
            vaults@.len() == i,
            forall|j: int|
                0 <= j < i ==> #[trigger] decoded@[j] == Ok::<DepositVault, String>(vaults@[j]),
        decreases decoded@.len() - i,
    {
        match &decoded[i] {
            Ok(vault) => vaults.push(*vault),
            Err(text) => {
                let e = HypernodeError::Decode(
                    join_with_colon("Failed to decode deposit vault", text.as_str()),
                );
                assert(decoded@[i as int] is Err);
                return Err(e);
            },
        }
        i = i + 1;
    }
    Ok(vaults)
}

/// How many headers are read when `lookback_count` is asked for.
pub open spec fn lookback(lookback_count: Option<usize>) -> int {
    match lookback_count {
        Some(count) => count as int,
        None => HEADER_LOOKBACK_LIMIT as int,
    }
}

/// The heights of the headers that are read below `stored_tip`: that one and those below it, down
/// to zero, at most `count` of them.
pub open spec fn heights_below(stored_tip: u64, count: int) -> Seq<u64> {
    Seq::new(
        (if count <= stored_tip {
            count
        } else {
            stored_tip + 1
        }) as nat,
        |i: int| (stored_tip - i) as u64,
    )
}

/// The heights of the headers that are read from the contract, the highest first.
pub fn header_heights(stored_tip: u64, lookback_count: Option<usize>) -> (heights: Vec<u64>)
    ensures
        heights@ == heights_below(stored_tip, lookback(lookback_count)),
{
    let lookback_limit: usize = match lookback_count {
        Some(count) => count,
        None => HEADER_LOOKBACK_LIMIT,
    };
    let mut heights: Vec<u64> = Vec::new();
    let mut i: usize = 0;
    while i < lookback_limit && i as u64 <= stored_tip
        invariant
            i <= lookback_limit,
            i <= stored_tip + 1,
            lookback_limit == lookback(lookback_count),
            heights@ == heights_below(stored_tip, i as int),
        decreases lookback_limit - i,
    {
        heights.push(stored_tip - i as u64);
        i = i + 1;
        assert(heights_below(stored_tip, i as int) =~= heights_below(stored_tip, i - 1).push(
            (stored_tip - (i - 1)) as u64,
        ));
    }
    assert(heights_below(stored_tip, i as int) =~= heights_below(
        stored_tip,
        lookback(lookback_count),
    ));
    heights
}

/// No height is read twice, and every height from `stored_tip` down is read until there are
/// `count` of them or there is none left.
pub proof fn law_heights_below(stored_tip: u64, count: int, height: u64)
    requires
        count >= 0,
    ensures
        heights_below(stored_tip, count).no_duplicates(),
        heights_below(stored_tip, count).contains(height) <==> height <= stored_tip && height
            > stored_tip - count,
        forall|i: int|
            0 <= i < heights_below(stored_tip, count).len() ==> #[trigger] heights_below(
                stored_tip,
                count,
            )[i] + i == stored_tip,
{
    let heights = heights_below(stored_tip, count);
    if height <= stored_tip && height > stored_tip - count {
        assert(heights[stored_tip - height] == height);
    }
}

/// Where a count is asked for, that many headers are read; otherwise 200 are.
pub proof fn law_lookback(lookback_count: Option<usize>)
    ensures
        lookback_count matches Some(count) ==> lookback(lookback_count) == count,
        lookback_count is None ==> lookback(lookback_count) == 200,
{
}

/// Whether `hash` stands for a block: a hash of zeros is what the contract gives where it knows
/// none.
pub open spec fn is_known(hash: [u8; 32]) -> bool {
    exists|i: int| 0 <= i < 32 && #[trigger] hash@[i] != 0
}

/// Whether `hash` stands for a block.
fn check_known(hash: &[u8; 32]) -> (r: bool)
    ensures
        r == is_known(*hash),
{
    let mut i: usize = 0;
    while i < 32
        invariant
            i <= 32,
            forall|j: int| 0 <= j < i ==> hash@[j] == 0,
        decreases 32 - i,
    {
        if hash[i] != 0 {
            assert(hash@[i as int] != 0);
            return true;
        }
        i = i + 1;
    }
    false
}

/// What is known of the contract's blocks once `hashes` were read for `heights`.
pub open spec fn with_headers(
    known: Map<u64, [u8; 32]>,
    heights: Seq<u64>,
    hashes: Seq<[u8; 32]>,
) -> Map<u64, [u8; 32]>
    decreases hashes.len(),
{
    if hashes.len() == 0 {
        known
    } else {
        let before = with_headers(known, heights, hashes.drop_last());
        if is_known(hashes.last()) {
            before.insert(heights[hashes.len() - 1], hashes.last())
        } else {
            before
        }
    }
}

/// Keeps the hashes that were read for `heights`, as far as they stand for blocks.
pub fn record_headers(
    heights: &[u64],
    block_hashes: &[[u8; 32]],
    store: &mut ActiveReservations,
)
    requires
        old(store).wf(),
        forall|i: int|
            0 <= i < block_hashes@.len() && is_known(#[trigger] block_hashes@[i]) ==> i
                < heights@.len(),
    ensures
        final(store).wf(),
        final(store)@ == old(store)@,
        final(store).contract_hashes() == with_headers(
            old(store).contract_hashes(),
            heights@,
            block_hashes@,
        ),
        heights@.no_duplicates() && block_hashes@.len() <= heights@.len() ==> forall|i: int|
            #![trigger block_hashes@[i]]
            0 <= i < block_hashes@.len() && block_hashes@[i]@ != zero_hash() ==> {
                &&& final(store).contract_hashes().dom().contains(heights@[i])
                &&& final(store).contract_hashes()[heights@[i]] == block_hashes@[i]
            },
{
    let mut i: usize = 0;
    assert(block_hashes@.take(0) =~= Seq::empty());
    while i < block_hashes.len()
        invariant
            i <= block_hashes@.len(),
            forall|i: int|
                0 <= i < block_hashes@.len() && is_known(#[trigger] block_hashes@[i]) ==> i
                    < heights@.len(),
            store.wf(),
            store@ == old(store)@,
            store.contract_hashes() == with_headers(
                old(store).contract_hashes(),
                heights@,
                block_hashes@.take(i as int),
            ),
        decreases block_hashes@.len() - i,
    {
        assert(block_hashes@.take(i + 1).drop_last() =~= block_hashes@.take(i as int));
        assert(block_hashes@.take(i + 1).last() == block_hashes@[i as int]);
        if check_known(&block_hashes[i]) {
            store.record_contract_hash(heights[i], block_hashes[i]);
        }
        i = i + 1;
    }
    assert(block_hashes@.take(i as int) =~= block_hashes@);
    proof {
        if heights@.no_duplicates() && block_hashes@.len() <= heights@.len() {
            law_recorded(old(store).contract_hashes(), heights@, block_hashes@);
        }
    }
}

/// The bytes of the hash that the contract gives where it knows no block: 32 zeros.
pub open spec fn zero_hash() -> Seq<u8> {
    Seq::new(32, |i: int| 0u8)
}

/// A hash stands for a block exactly when it differs from 32 zero bytes, whichever of its bytes
/// do.
pub proof fn law_known(hash: [u8; 32])
    ensures
        is_known(hash) <==> hash@ != zero_hash(),
        forall|i: int| 0 <= i < 32 && #[trigger] hash@[i] != 0 ==> is_known(hash),
        zero_hash().len() == 32,
        forall|i: int| 0 <= i < 32 ==> #[trigger] zero_hash()[i] == 0,
{
    if !is_known(hash) {
        assert forall|i: int| 0 <= i < 32 implies hash@[i] == zero_hash()[i] by {
            assert(hash@[i] == 0);
        }
        assert(hash@ =~= zero_hash());
    } else {
        let i = choose|i: int| 0 <= i < 32 && #[trigger] hash@[i] != 0;
        assert(zero_hash()[i] == 0);
    }
}

/// Where every height is read once, the hash that was read for a height is known at that height
/// afterwards, unless it is 32 zero bytes: then what was known stays. So it does at the heights that
/// nothing was read for.
pub proof fn law_recorded(known: Map<u64, [u8; 32]>, heights: Seq<u64>, hashes: Seq<[u8; 32]>)
    requires
        heights.no_duplicates(),
        hashes.len() <= heights.len(),
    ensures
        ({
            let after = with_headers(known, heights, hashes);
            &&& forall|i: int|
                #![trigger heights[i]]
                #![trigger hashes[i]]
                0 <= i < hashes.len() && hashes[i]@ != zero_hash() ==> {
                    &&& after.dom().contains(heights[i])
                    &&& after[heights[i]] == hashes[i]
                }
            &&& forall|i: int|
                #![trigger heights[i]]
                #![trigger hashes[i]]
                0 <= i < hashes.len() && hashes[i]@ == zero_hash() ==> {
                    &&& after.dom().contains(heights[i]) <==> known.dom().contains(heights[i])
                    &&& after[heights[i]] == known[heights[i]]
                }
            &&& forall|height: u64|
                #![trigger after.dom().contains(height)]
                #![trigger after[height]]
                (forall|i: int| 0 <= i < hashes.len() ==> #[trigger] heights[i] != height) ==> {
                    &&& after.dom().contains(height) <==> known.dom().contains(height)
                    &&& after[height] == known[height]
                }
        }),
    decreases hashes.len(),
{
    let after = with_headers(known, heights, hashes);
    if hashes.len() > 0 {
        let rest = hashes.drop_last();
        let last = hashes.len() - 1;
        let before = with_headers(known, heights, rest);
        law_recorded(known, heights, rest);
        law_known(hashes.last());
        assert(before.dom().contains(heights[last]) <==> known.dom().contains(heights[last]));
        assert(before[heights[last]] == known[heights[last]]);
        assert forall|i: int|
            #![trigger heights[i]]
            #![trigger hashes[i]]
            0 <= i < hashes.len() && hashes[i]@ != zero_hash() implies {
            &&& after.dom().contains(heights[i])
            &&& after[heights[i]] == hashes[i]
        } by {
            if i < last {
                assert(rest[i] == hashes[i]);
                assert(heights[i] != heights[last]);
            }
        }
        assert forall|i: int|
            #![trigger heights[i]]
            #![trigger hashes[i]]
            0 <= i < hashes.len() && hashes[i]@ == zero_hash() implies {
            &&& after.dom().contains(heights[i]) <==> known.dom().contains(heights[i])
            &&& after[heights[i]] == known[heights[i]]
        } by {
            if i < last {
                assert(rest[i] == hashes[i]);
                assert(heights[i] != heights[last]);
            }
        }
        assert forall|height: u64|
            #![trigger after.dom().contains(height)]
            #![trigger after[height]]
            (forall|i: int| 0 <= i < hashes.len() ==> #[trigger] heights[i] != height) implies {
            &&& after.dom().contains(height) <==> known.dom().contains(height)
            &&& after[height] == known[height]
        } by {
            assert(heights[last] != height);
            assert(before.dom().contains(height) <==> known.dom().contains(height));
        }
    }
}

/// Where every height is read once, the hash that was read for a height is kept exactly when it
/// stands for a block; where none was, what was known stays.
pub proof fn law_with_headers(
    known: Map<u64, [u8; 32]>,
    heights: Seq<u64>,
    hashes: Seq<[u8; 32]>,
    height: u64,
)
    requires
        heights.no_duplicates(),
        hashes.len() <= heights.len(),
    ensures
        ({
            let after = with_headers(known, heights, hashes);
            if exists|i: int|
                0 <= i < hashes.len() && #[trigger] heights[i] == height && is_known(hashes[i]) {
                exists|i: int|
                    {
                        &&& 0 <= i < hashes.len()
                        &&& #[trigger] heights[i] == height
                        &&& is_known(hashes[i])
                        &&& after.dom().contains(height)
                        &&& after[height] == hashes[i]
                    }
            } else {
                &&& after.dom().contains(height) == known.dom().contains(height)
                &&& after[height] == known[height]
            }
        }),
    decreases hashes.len(),
{
    if hashes.len() > 0 {
        let rest = hashes.drop_last();
        let last = hashes.len() - 1;
        law_with_headers(known, heights, rest, height);
        if exists|i: int|
            0 <= i < hashes.len() && #[trigger] heights[i] == height && is_known(hashes[i]) {
            let i = choose|i: int|
                0 <= i < hashes.len() && #[trigger] heights[i] == height && is_known(hashes[i]);
            if i < last {
                assert(is_known(rest[i]));
                let k = choose|k: int|
                    {
                        &&& 0 <= k < rest.len()
                        &&& #[trigger] heights[k] == height
                        &&& is_known(rest[k])
                        &&& with_headers(known, heights, rest).dom().contains(height)
                        &&& with_headers(known, heights, rest)[height] == rest[k]
                    };
                assert(heights[last] != height);
                assert(heights[k] == height && is_known(hashes[k]));
            } else {
                assert(heights[last] == height);
            }
        } else {
            assert(!exists|i: int|
                0 <= i < rest.len() && #[trigger] heights[i] == height && is_known(rest[i])) by {
                if exists|i: int|
                    0 <= i < rest.len() && #[trigger] heights[i] == height && is_known(rest[i]) {
                    let i = choose|i: int|
                        0 <= i < rest.len() && #[trigger] heights[i] == height && is_known(
                            rest[i],
                        );
                    assert(heights[i] == height && is_known(hashes[i]));
                }
            }
            assert(heights[last] == height ==> !is_known(hashes[last]));
        }
    }
}

/// The vaults that a reservation takes its liquidity from, by the numbers that the contract's
/// aggregator of vaults takes: the lowest 32 bits of each index.
pub fn vault_numbers(reservation: &SwapReservation) -> (numbers: Vec<u32>)
    ensures
        numbers@ == reservation.vault_indexes@.map_values(
            |index: U256| (index@ % 0x1_0000_0000) as u32,
        ),
        numbers@.len() == reservation.vault_indexes@.len(),
        forall|i: int|
            0 <= i < numbers@.len() && reservation.vault_indexes@[i]@ <= u32::MAX
                ==> #[trigger] numbers@[i] == reservation.vault_indexes@[i]@,
{
    let mut numbers: Vec<u32> = Vec::new();
    let mut i: usize = 0;
    while i < reservation.vault_indexes.len()
        invariant
            i <= reservation.vault_indexes@.len(),
            numbers@.len() == i,
            forall|j: int|
                0 <= j < i ==> #[trigger] numbers@[j] == reservation.vault_indexes@[j]@
                    % 0x1_0000_0000,
        decreases reservation.vault_indexes@.len() - i,
    {
        numbers.push(reservation.vault_indexes[i].low_u32());
        i = i + 1;
    }
    assert(numbers@ =~= reservation.vault_indexes@.map_values(
        |index: U256| (index@ % 0x1_0000_0000) as u32,
    ));
    numbers
}

} // verus!
