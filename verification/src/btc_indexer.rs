//! Looks for payments in Bitcoin blocks and decides when a payment is confirmed.

use bitcoin::opcodes::all::OP_RETURN;
use bitcoin::script::Builder;
use vstd::prelude::*;
use vstd::string::*;

use crate::block::{Block, Transaction, TxOut, TxOutView};
use crate::btc_rpc::hash_text;
use crate::bytes::{hex_encode, hex_text, same_bytes};
use crate::constants::CONFIRMATION_HEIGHT_DELTA;
use crate::error::{ErrorView, HypernodeError};
use crate::proof_broadcast::paying_block_kept;
use crate::proof_builder::{above_safe_block, ProofGenerationInput, TransactionProofInput};
use crate::store::{
    count_below, increasing, unexpired, ActiveReservations, BitcoinReservationFinal,
    BitcoinReservationInProgress, DepositVault, ReservationMetadata,
};
use crate::text::{colon_joined, decimal, decimal_u64};
use crate::u256::U256;

verus! {

/// The script that inscribes `nonce`: an `OP_RETURN`, then one push of the 32 bytes.
pub open spec fn inscription(nonce: Seq<u8>) -> Seq<u8> {
    seq![0x6au8, 0x20u8] + nonce
}

/// Calls `push_opcode` with `OP_RETURN`, `push_slice` and `into_script` of
/// `bitcoin::script::Builder`.
///
/// The script is the opcode's byte, 0x6a, then a byte for the length of the data, which up to 75
/// bytes is the length itself, then the data.
#[verifier::external_body]
fn op_return_script(data: &[u8; 32]) -> (script: Vec<u8>)
    ensures
        script@ == inscription(data@),
{
    Builder::new().push_opcode(OP_RETURN).push_slice(data).into_script().into_bytes()
}

/// The script that a payment for the order with `order_nonce` carries.
pub fn build_rift_inscription(order_nonce: [u8; 32]) -> (script: Vec<u8>)
    ensures
        script@ == inscription(order_nonce@),
        inscribes(script@, order_nonce),
        script@.len() == 34,
        forall|i: int| 0 <= i < 32 ==> order_nonce@[i] == #[trigger] script@[2 + i],
{
    let script = op_return_script(&order_nonce);
    proof {
        lemma_inscription(script@, order_nonce);
    }
    script
}

/// Whether one of the outputs has the script `script`.
pub open spec fn has_script(outputs: Seq<TxOut>, script: Seq<u8>) -> bool {
    exists|i: int| 0 <= i < outputs.len() && (#[trigger] outputs[i]).script_pubkey@ == script
}

/// Whether one of the outputs has the script `script`.
fn any_script(outputs: &[TxOut], script: &[u8]) -> (r: bool)
    ensures
        r == has_script(outputs@, script@),
{
    let mut i: usize = 0;
    while i < outputs.len()
        invariant
            i <= outputs@.len(),
            forall|j: int| 0 <= j < i ==> (#[trigger] outputs@[j]).script_pubkey@ != script@,
        decreases outputs@.len() - i,
    {
        if same_bytes(outputs[i].script_pubkey.as_slice(), script) {
            return true;
        }
        i = i + 1;
    }
    false
}

/// What a reservation owes: to the owner of each vault the satoshis expected for it.
pub open spec fn payouts(vaults: Seq<DepositVault>, sats: Seq<u64>) -> Seq<TxOutView> {
    Seq::new(
        if vaults.len() <= sats.len() {
            vaults.len()
        } else {
            sats.len()
        },
        |i: int|
            TxOutView { value: sats[i], script_pubkey: vaults[i].btc_payout_locking_script@ },
    )
}

/// How often `payout` is among `payments`.
pub open spec fn times_in(payments: Seq<TxOutView>, payout: TxOutView) -> nat
    decreases payments.len(),
{
    if payments.len() == 0 {
        0
    } else {
        times_in(payments.drop_last(), payout) + if payments.last() == payout {
            1nat
        } else {
            0nat
        }
    }
}

/// Whether `outputs` make every one of `owed`, as often as it is owed.
pub open spec fn covers(outputs: Seq<TxOutView>, owed: Seq<TxOutView>) -> bool {
    forall|i: int|
        0 <= i < owed.len() ==> times_in(owed, #[trigger] owed[i]) <= times_in(outputs, owed[i])
}

/// How often `outputs` pay `value` to `script`.
fn count_outputs(outputs: &[TxOut], value: u64, script: &[u8]) -> (n: usize)
    ensures
        n == times_in(
            outputs@.map_values(|output: TxOut| output@),
            TxOutView { value, script_pubkey: script@ },
        ),
        n <= outputs@.len(),
{
    let ghost views = outputs@.map_values(|output: TxOut| output@);
    let ghost payout = TxOutView { value, script_pubkey: script@ };
    let mut n: usize = 0;
    let mut i: usize = 0;
    while i < outputs.len()
        invariant
            i <= outputs@.len(),
            n <= i,
            views == outputs@.map_values(|output: TxOut| output@),
            payout == (TxOutView { value, script_pubkey: script@ }),
            n == times_in(views.take(i as int), payout),
        decreases outputs@.len() - i,
    {
        assert(views.take(i + 1).drop_last() =~= views.take(i as int));
        assert(views.take(i + 1).last() == outputs@[i as int]@);
        if outputs[i].value == value && same_bytes(outputs[i].script_pubkey.as_slice(), script) {
            n = n + 1;
        }
        i = i + 1;
    }
    assert(views.take(i as int) =~= views);
    n
}

/// How often a reservation owes `value` to `script`.
fn count_payouts(vaults: &[DepositVault], sats: &[u64], value: u64, script: &[u8]) -> (n: usize)
    ensures
        n == times_in(payouts(vaults@, sats@), TxOutView { value, script_pubkey: script@ }),
{
    let ghost owed = payouts(vaults@, sats@);
    let ghost payout = TxOutView { value, script_pubkey: script@ };
    let mut n: usize = 0;
    let mut i: usize = 0;
    while i < vaults.len() && i < sats.len()
        invariant
            i <= vaults@.len(),
            i <= sats@.len(),
            n <= i,
            owed == payouts(vaults@, sats@),
            payout == (TxOutView { value, script_pubkey: script@ }),
            n == times_in(owed.take(i as int), payout),
        decreases vaults@.len() - i,
    {
        assert(owed.take(i + 1).drop_last() =~= owed.take(i as int));
        assert(owed.take(i + 1).last() == owed[i as int]);
        if sats[i] == value && same_bytes(vaults[i].btc_payout_locking_script.as_slice(), script) {
            n = n + 1;
        }
        i = i + 1;
    }
    assert(owed.take(i as int) =~= owed);
    n
}

/// Whether the outputs of a transaction match with a reservation: they make every payout that it
/// owes, as often as it owes it.
pub open spec fn outputs_match(outputs: Seq<TxOut>, metadata: ReservationMetadata) -> bool {
    covers(
        outputs.map_values(|output: TxOut| output@),
        payouts(metadata.reserved_vaults@, metadata.reservation.expected_sats_output@),
    )
}

/// Whether the outputs of a transaction match with a reservation.
fn check_outputs(outputs: &[TxOut], metadata: &ReservationMetadata) -> (r: bool)
    ensures
        r == outputs_match(outputs@, *metadata),
{
    let vaults = metadata.reserved_vaults.as_slice();
    let sats = metadata.reservation.expected_sats_output.as_slice();
    let ghost owed = payouts(vaults@, sats@);
    let ghost made = outputs@.map_values(|output: TxOut| output@);
    let mut i: usize = 0;
    while i < vaults.len() && i < sats.len()
        invariant
            i <= vaults@.len(),
            i <= sats@.len(),
            vaults@ == metadata.reserved_vaults@,
            sats@ == metadata.reservation.expected_sats_output@,
            owed == payouts(vaults@, sats@),
            made == outputs@.map_values(|output: TxOut| output@),
            forall|j: int|
                0 <= j < i ==> times_in(owed, #[trigger] owed[j]) <= times_in(made, owed[j]),
        decreases vaults@.len() - i,
    {
        let script = vaults[i].btc_payout_locking_script.as_slice();
        let owed_times: usize = count_payouts(vaults, sats, sats[i], script);
        let made_times: usize = count_outputs(outputs, sats[i], script);
        assert(owed[i as int] == (TxOutView { value: sats@[i as int], script_pubkey: script@ }));
        if owed_times > made_times {
            return false;
        }
        i = i + 1;
    }
    true
}

/// Whether a transaction pays for a reservation: one of its outputs inscribes the order's nonce,
/// and its outputs match with the reservation.
pub open spec fn is_payment(tx: Transaction, metadata: ReservationMetadata) -> bool {
    &&& has_script(tx.outputs@, inscription(metadata.reservation.nonce@))
    &&& outputs_match(tx.outputs@, metadata)
}

/// The id of the last of the transactions that pays for a reservation, if one does.
pub open spec fn last_payment(
    transactions: Seq<Transaction>,
    metadata: ReservationMetadata,
) -> Option<[u8; 32]>
    decreases transactions.len(),
{
    if transactions.len() == 0 {
        None
    } else if is_payment(transactions.last(), metadata) {
        Some(transactions.last().txid)
    } else {
        last_payment(transactions.drop_last(), metadata)
    }
}

/// Looks among the transactions for the last that pays for a reservation.
fn find_payment(transactions: &[Transaction], metadata: &ReservationMetadata) -> (r: Option<
    [u8; 32],
>)
    ensures
        r == last_payment(transactions@, *metadata),
{
    let script = build_rift_inscription(metadata.reservation.nonce);
    let mut n: usize = transactions.len();
    assert(transactions@.take(n as int) =~= transactions@);
    while n > 0
        invariant
            n <= transactions@.len(),
            script@ == inscription(metadata.reservation.nonce@),
            last_payment(transactions@, *metadata) == last_payment(
                transactions@.take(n as int),
                *metadata,
            ),
        decreases n,
    {
        let ghost rest = transactions@.take(n as int);
        assert(rest.drop_last() =~= transactions@.take(n - 1));
        let tx = &transactions[n - 1];
        assert(rest.last() == *tx);
        if any_script(tx.outputs.as_slice(), script.as_slice()) && check_outputs(
            tx.outputs.as_slice(),
            metadata,
        ) {
            return Some(tx.txid);
        }
        n = n - 1;
    }
    None
}

/// What is known of a reservation once the block at `height` was searched for its payment.
pub open spec fn after_block(
    metadata: ReservationMetadata,
    height: u64,
    block: Block,
) -> ReservationMetadata {
    match last_payment(block.transactions@, metadata) {
        Some(txid) => metadata.with_btc(
            BitcoinReservationInProgress::seen(height, block.block_hash, txid),
        ),
        None => metadata,
    }
}

/// Which transaction is the last payment does not depend on the payments that were seen before.
proof fn lemma_last_payment_of_same(
    transactions: Seq<Transaction>,
    a: ReservationMetadata,
    b: ReservationMetadata,
)
    requires
        a.reservation == b.reservation,
        a.reserved_vaults == b.reserved_vaults,
    ensures
        last_payment(transactions, a) == last_payment(transactions, b),
    decreases transactions.len(),
{
    if transactions.len() > 0 {
        lemma_last_payment_of_same(transactions.drop_last(), a, b);
    }
}

/// Searching a block changes nothing of a reservation but the payment that was seen, and searching
/// the same block again changes nothing at all.
pub proof fn law_after_block(metadata: ReservationMetadata, height: u64, block: Block)
    ensures
        ({
            let after = after_block(metadata, height, block);
            &&& after.reservation == metadata.reservation
            &&& after.reserved_vaults == metadata.reserved_vaults
            &&& after.btc_final == metadata.btc_final
            &&& after.proof == metadata.proof
            &&& after.public_inputs == metadata.public_inputs
            &&& after.btc is Some <==> metadata.btc is Some || last_payment(
                block.transactions@,
                metadata,
            ) is Some
            &&& after_block(after, height, block) == after
        }),
{
    lemma_last_payment_of_same(
        block.transactions@,
        metadata,
        after_block(metadata, height, block),
    );
}

/// What is known of a reservation once the blocks from the height `first` on were searched, one
/// after the other.
pub open spec fn after_blocks(
    metadata: ReservationMetadata,
    first: u64,
    blocks: Seq<Block>,
) -> ReservationMetadata
    decreases blocks.len(),
{
    if blocks.len() == 0 {
        metadata
    } else {
        after_block(
            after_blocks(metadata, first, blocks.drop_last()),
            (first + blocks.len() - 1) as u64,
            blocks.last(),
        )
    }
}

/// Whether the `k`-th block makes a payment for a reservation and none after it does.
pub open spec fn pays_last(metadata: ReservationMetadata, blocks: Seq<Block>, k: int) -> bool {
    &&& 0 <= k < blocks.len()
    &&& last_payment(blocks[k].transactions@, metadata) is Some
    &&& forall|j: int|
        k < j < blocks.len() ==> last_payment(
            (#[trigger] blocks[j]).transactions@,
            metadata,
        ) is None
}

/// Whether none of the blocks makes a payment for a reservation.
pub open spec fn none_pays(metadata: ReservationMetadata, blocks: Seq<Block>) -> bool {
    forall|j: int|
        0 <= j < blocks.len() ==> last_payment(
            (#[trigger] blocks[j]).transactions@,
            metadata,
        ) is None
}

/// No payment is missed: once a run of blocks was searched, the payment that is known of a
/// reservation is the last that the blocks make for it; if they make none, nothing has changed.
pub proof fn law_after_blocks(metadata: ReservationMetadata, first: u64, blocks: Seq<Block>)
    ensures
        none_pays(metadata, blocks) || exists|k: int| pays_last(metadata, blocks, k),
        none_pays(metadata, blocks) ==> after_blocks(metadata, first, blocks) == metadata,
        forall|k: int| #[trigger]
            pays_last(metadata, blocks, k) ==> after_blocks(metadata, first, blocks)
                == metadata.with_btc(
                BitcoinReservationInProgress::seen(
                    (first + k) as u64,
                    blocks[k].block_hash,
                    last_payment(blocks[k].transactions@, metadata)->0,
                ),
            ),
    decreases blocks.len(),
{
    if blocks.len() > 0 {
        let rest = blocks.drop_last();
        let last = blocks.len() - 1;
        let before = after_blocks(metadata, first, rest);
        law_after_blocks(metadata, first, rest);
        assert(before.reservation == metadata.reservation && before.reserved_vaults
            == metadata.reserved_vaults) by {
            if !none_pays(metadata, rest) {
                let k = choose|k: int| pays_last(metadata, rest, k);
                assert(pays_last(metadata, rest, k));
            }
        }
        lemma_last_payment_of_same(blocks.last().transactions@, before, metadata);
        if last_payment(blocks.last().transactions@, metadata) is Some {
            assert(pays_last(metadata, blocks, last));
            assert(last_payment(blocks[last].transactions@, metadata) is Some);
            assert forall|k: int| #[trigger] pays_last(metadata, blocks, k) implies k == last by {}
        } else {
            assert(none_pays(metadata, rest) <==> none_pays(metadata, blocks)) by {
                assert(forall|j: int| 0 <= j < last ==> #[trigger] rest[j] == blocks[j]);
                assert(forall|j: int| 0 <= j < last ==> rest[j] == #[trigger] blocks[j]);
            }
            assert forall|k: int| #[trigger] pays_last(metadata, blocks, k) <==> pays_last(
                metadata,
                rest,
                k,
            ) by {
                assert(forall|j: int| 0 <= j < last ==> #[trigger] rest[j] == blocks[j]);
                assert(forall|j: int| 0 <= j < last ==> rest[j] == #[trigger] blocks[j]);
            }
            if !none_pays(metadata, rest) {
                let k = choose|k: int| pays_last(metadata, rest, k);
                assert(pays_last(metadata, blocks, k));
            }
            assert forall|k: int| #[trigger] pays_last(metadata, blocks, k) implies rest[k]
                == blocks[k] && pays_last(metadata, rest, k) by {}
        }
    }
}

/// A payment that was found: the reservation that it is for and the transaction that makes it.
#[derive(Debug, Clone, Copy, PartialEq, Eq)]
pub struct FoundPayment {
    pub reservation_id: U256,
    pub txid: [u8; 32],
}

/// Whether `payment` is the one that the block makes for a reservation that is watched.
pub open spec fn is_found(
    reservations: Map<U256, ReservationMetadata>,
    block: Block,
    payment: FoundPayment,
) -> bool {
    &&& reservations.dom().contains(payment.reservation_id)
    &&& last_payment(block.transactions@, reservations[payment.reservation_id]) == Some(
        payment.txid,
    )
}

/// Searches the block at `height` for payments and notes each that it finds.
pub fn analyze_block_for_payments(
    height: u64,
    block: &Block,
    active_reservations: &mut ActiveReservations,
) -> (found: Vec<FoundPayment>)
    requires
        old(active_reservations).wf(),
    ensures
        final(active_reservations).wf(),
        final(active_reservations)@ == old(active_reservations)@.map_values(
            |metadata: ReservationMetadata| after_block(metadata, height, *block),
        ),
        final(active_reservations).contract_hashes() == old(active_reservations).contract_hashes(),
        forall|payment: FoundPayment|
            found@.contains(payment) <==> is_found(old(active_reservations)@, *block, payment),
        found@.no_duplicates(),
        forall|k: int|
            0 <= k < found@.len() ==> {
                let noted = final(active_reservations)@[(#[trigger] found@[k]).reservation_id].btc;
                &&& noted is Some
                &&& noted->0.proposed_block_height == height
                &&& noted->0.proposed_block_hash == block.block_hash
                &&& noted->0.txid == found@[k].txid
            },
{
    let ids = active_reservations.ids();
    let mut found: Vec<FoundPayment> = Vec::new();
    let ghost before = active_reservations@;
    let mut i: usize = 0;
    while i < ids.len()
        invariant
            i <= ids@.len(),
            ids@.no_duplicates(),
            before == old(active_reservations)@,
            forall|id: U256| ids@.contains(id) <==> before.dom().contains(id),
            active_reservations.wf(),
            active_reservations.contract_hashes() == old(active_reservations).contract_hashes(),
            active_reservations@.dom() == before.dom(),
            forall|j: int|
                0 <= j < i ==> active_reservations@[#[trigger] ids@[j]] == after_block(
                    before[ids@[j]],
                    height,
                    *block,
                ),
            forall|j: int|
                i <= j < ids@.len() ==> active_reservations@[#[trigger] ids@[j]]
                    == before[ids@[j]],
            forall|k: int| 0 <= k < found@.len() ==> is_found(before, *block, #[trigger] found@[k]),
            forall|k: int|
                0 <= k < found@.len() ==> ids@.take(i as int).contains(
                    (#[trigger] found@[k]).reservation_id,
                ),
            found@.no_duplicates(),
            forall|payment: FoundPayment|
                #[trigger] is_found(before, *block, payment) && ids@.take(i as int).contains(
                    payment.reservation_id,
                ) ==> found@.contains(payment),
        decreases ids@.len() - i,
    {
        let id = ids[i];
        assert(ids@.contains(ids@[i as int]));
        let ghost found_before = found@;
        let payment = match active_reservations.get(id) {
            Some(metadata) => find_payment(block.transactions.as_slice(), metadata),
            None => None,
        };
        if let Some(txid) = payment {
            active_reservations.update_btc_reservation(id, height, block.block_hash, txid);
            found.push(FoundPayment { reservation_id: id, txid });
            proof {
                assert(found@.last() == FoundPayment { reservation_id: id, txid });
                assert forall|payment: FoundPayment| found_before.contains(
                    payment,
                ) implies found@.contains(payment) by {
                    let k = found_before.index_of(payment);
                    assert(found@[k] == payment);
                }
                assert forall|k: int| 0 <= k < found_before.len() implies (
                #[trigger] found_before[k]).reservation_id != id by {
                    let j = ids@.take(i as int).index_of(found_before[k].reservation_id);
                    assert(ids@.take(i as int)[j] == found_before[k].reservation_id);
                    assert(ids@[j] != ids@[i as int]);
                }
            }
        }
        proof {
            assert forall|k: int| 0 <= k < found@.len() implies ids@.take(i + 1).contains(
                (#[trigger] found@[k]).reservation_id,
            ) by {
                if k < found_before.len() {
                    let j = ids@.take(i as int).index_of(found_before[k].reservation_id);
                    assert(ids@.take(i as int)[j] == found_before[k].reservation_id);
                    assert(ids@.take(i + 1)[j] == found_before[k].reservation_id);
                } else {
                    assert(ids@.take(i + 1)[i as int] == id);
                }
            }
            assert forall|payment: FoundPayment| #[trigger]
                is_found(before, *block, payment) && ids@.take(i + 1).contains(
                    payment.reservation_id,
                ) implies found@.contains(payment) by {
                let j = ids@.take(i + 1).index_of(payment.reservation_id);
                if j < i {
                    assert(ids@.take(i as int)[j] == payment.reservation_id);
                } else {
                    assert(payment.reservation_id == id);
                }
            }
        }
        i = i + 1;
    }
    proof {
        assert(ids@.take(i as int) =~= ids@);
        assert forall|payment: FoundPayment|
            found@.contains(payment) <==> is_found(before, *block, payment) by {
            if found@.contains(payment) {
                assert(is_found(before, *block, found@[found@.index_of(payment)]));
            }
        }
        let after = before.map_values(
            |metadata: ReservationMetadata| after_block(metadata, height, *block),
        );
        assert forall|id: U256| before.dom().contains(id) implies active_reservations@[id]
            == after[id] by {
            let j = ids@.index_of(id);
            assert(ids@[j] == id);
        }
        assert(active_reservations@ =~= after);
    }
    found
}

/// A transaction is the last payment exactly when it pays and none after it does; there is no last
/// payment exactly when none of the transactions pays.
pub proof fn law_last_payment(transactions: Seq<Transaction>, metadata: ReservationMetadata)
    ensures
        match last_payment(transactions, metadata) {
            Some(txid) => exists|i: int|
                {
                    &&& 0 <= i < transactions.len()
                    &&& (#[trigger] transactions[i]).txid == txid
                    &&& is_payment(transactions[i], metadata)
                    &&& forall|j: int|
                        i < j < transactions.len() ==> !is_payment(
                            #[trigger] transactions[j],
                            metadata,
                        )
                },
            None => forall|j: int|
                0 <= j < transactions.len() ==> !is_payment(#[trigger] transactions[j], metadata),
        },
    decreases transactions.len(),
{
    if transactions.len() > 0 {
        let rest = transactions.drop_last();
        if is_payment(transactions.last(), metadata) {
            let i = transactions.len() - 1;
            assert(transactions[i].txid == transactions.last().txid);
        } else {
            law_last_payment(rest, metadata);
            if let Some(txid) = last_payment(rest, metadata) {
                let i = choose|i: int|
                    {
                        &&& 0 <= i < rest.len()
                        &&& (#[trigger] rest[i]).txid == txid
                        &&& is_payment(rest[i], metadata)
                        &&& forall|j: int|
                            i < j < rest.len() ==> !is_payment(#[trigger] rest[j], metadata)
                    };
                assert(transactions[i].txid == txid);
                assert forall|j: int| i < j < transactions.len() implies !is_payment(
                    #[trigger] transactions[j],
                    metadata,
                ) by {
                    if j < rest.len() {
                        assert(rest[j] == transactions[j]);
                    }
                }
            } else {
                assert forall|j: int| 0 <= j < transactions.len() implies !is_payment(
                    #[trigger] transactions[j],
                    metadata,
                ) by {
                    if j < rest.len() {
                        assert(rest[j] == transactions[j]);
                    }
                }
            }
        }
    }
}

/// How many blocks make a period with one difficulty.
pub const RETARGET_PERIOD: u64 = 2016;

/// Which blocks the proof of a confirmed payment is made from.
#[derive(Debug, Clone, Copy, PartialEq, Eq)]
pub struct ConfirmationPlan {
    /// The highest block below the paying one that the contract knows.
    pub safe_height: u64,
    /// The block that confirms the payment.
    pub confirmation_height: u64,
    /// The first block of the difficulty period of the safe one.
    pub retarget_height: u64,
}

/// Whether `height` is the highest of `heights` that is below `proposed`.
pub open spec fn is_safe_height(heights: Set<u64>, proposed: u64, height: u64) -> bool {
    &&& heights.contains(height)
    &&& height < proposed
    &&& forall|other: u64| #[trigger] heights.contains(other) && other < proposed ==> other <= height
}

/// Whether `height` confirms a payment that needs a block at `minimum` or above: it is the lowest
/// of `heights` from there on, or `minimum` itself where `heights` does not reach so far.
pub open spec fn is_confirmation_height(heights: Set<u64>, minimum: int, height: u64) -> bool {
    if exists|other: u64| #[trigger] heights.contains(other) && other >= minimum {
        &&& heights.contains(height)
        &&& height >= minimum
        &&& forall|other: u64| #[trigger]
            heights.contains(other) && other >= minimum ==> height <= other
    } else {
        height == minimum
    }
}

/// Whether `plan` is the one for a payment in the block at `proposed`, where the contract knows
/// `heights`.
pub open spec fn is_plan(heights: Set<u64>, proposed: u64, plan: ConfirmationPlan) -> bool {
    &&& is_safe_height(heights, proposed, plan.safe_height)
    &&& is_confirmation_height(
        heights,
        proposed + CONFIRMATION_HEIGHT_DELTA,
        plan.confirmation_height,
    )
    &&& plan.retarget_height == plan.safe_height - plan.safe_height % RETARGET_PERIOD
}

/// Whether one of `heights` is below `proposed`.
pub open spec fn has_safe_height(heights: Set<u64>, proposed: u64) -> bool {
    exists|height: u64| #[trigger] heights.contains(height) && height < proposed
}

/// Plans the proof of a payment in the block at `proposed_block_height`.
///
/// The confirming block can be ahead of what the contract knows, but the safe one cannot: there
/// has to be a block below the paying one that the contract knows.
pub fn plan_confirmation(available_btc_heights: &[u64], proposed_block_height: u64) -> (plan:
    ConfirmationPlan)
    requires
        increasing(available_btc_heights@),
        proposed_block_height + CONFIRMATION_HEIGHT_DELTA <= u64::MAX,
        has_safe_height(available_btc_heights@.to_set(), proposed_block_height),
    ensures
        is_plan(available_btc_heights@.to_set(), proposed_block_height, plan),
{
    let ghost heights = available_btc_heights@;
    let below: usize = count_below(available_btc_heights, proposed_block_height);
    proof {
        let height = choose|height: u64| #[trigger]
            heights.to_set().contains(height) && height < proposed_block_height;
        assert(heights[heights.index_of(height)] == height);
    }
    let safe_height: u64 = available_btc_heights[below - 1];
    let min_confirmation_height: u64 = proposed_block_height + CONFIRMATION_HEIGHT_DELTA;
    let before: usize = count_below(available_btc_heights, min_confirmation_height);
    let confirmation_height: u64 = if before == available_btc_heights.len() {
        min_confirmation_height
    } else {
        available_btc_heights[before]
    };
    proof {
        assert(heights[below - 1] == safe_height);
        assert forall|other: u64| #[trigger]
            heights.to_set().contains(other) && other < proposed_block_height implies other
            <= safe_height by {
            let i = heights.index_of(other);
            assert(heights[i] == other);
            assert(i <= below - 1);
        }
        if before < heights.len() {
            assert(heights.to_set().contains(heights[before as int]));
            assert forall|other: u64| #[trigger]
                heights.to_set().contains(other) && other
                    >= min_confirmation_height implies confirmation_height <= other by {
                let i = heights.index_of(other);
                assert(heights[i] == other);
                assert(i >= before);
            }
        } else {
            assert forall|other: u64| #[trigger] heights.to_set().contains(other) implies other
                < min_confirmation_height by {
                assert(heights[heights.index_of(other)] == other);
            }
        }
    }
    ConfirmationPlan {
        safe_height,
        confirmation_height,
        retarget_height: safe_height - safe_height % RETARGET_PERIOD,
    }
}

/// There is at most one plan for a payment. The paying block lies strictly between the safe block
/// and the confirming one, and the safe block in the difficulty period that the retarget block
/// starts. No block that the contract knows lies between the safe block and the paying one; nor
/// between the block after the paying one and the confirming block, which the contract knows too,
/// unless it knows no block above the paying one: then the very next block confirms.
pub proof fn law_plan(
    heights: Set<u64>,
    proposed: u64,
    plan: ConfirmationPlan,
    other: ConfirmationPlan,
)
    requires
        is_plan(heights, proposed, plan),
    ensures
        is_plan(heights, proposed, other) ==> other == plan,
        plan.safe_height < proposed < plan.confirmation_height,
        proposed + CONFIRMATION_HEIGHT_DELTA <= plan.confirmation_height,
        plan.retarget_height % RETARGET_PERIOD == 0,
        plan.retarget_height <= plan.safe_height < plan.retarget_height + RETARGET_PERIOD,
        plan.retarget_height % 2016 == 0,
        plan.retarget_height <= plan.safe_height < plan.retarget_height + 2016,
        heights.contains(plan.safe_height),
        forall|height: u64|
            plan.safe_height < height < proposed ==> !#[trigger] heights.contains(height),
        forall|height: u64|
            proposed < height < plan.confirmation_height ==> !#[trigger] heights.contains(height),
        heights.contains(plan.confirmation_height) || {
            &&& plan.confirmation_height == proposed + 1
            &&& forall|height: u64| #[trigger] heights.contains(height) ==> height <= proposed
        },
{
}

/// What is to be done about a payment that waits for its confirmations.
#[derive(Debug, Clone, Copy, PartialEq, Eq)]
pub enum ConfirmationStep {
    /// It needs this many more blocks.
    Wait(u128),
    /// It is confirmed, and no block below it is known to the contract.
    NoSafeHeight,
    /// It is confirmed, and the proof is made from these blocks.
    Prove(ConfirmationPlan),
}

/// Whether `step` is what is to be done, at `height`, about a payment in the block at `proposed`,
/// where the contract knows `heights`.
pub open spec fn is_step(
    heights: Set<u64>,
    proposed: u64,
    height: u64,
    step: ConfirmationStep,
) -> bool {
    let minimum = proposed + CONFIRMATION_HEIGHT_DELTA;
    match step {
        ConfirmationStep::Wait(blocks) => minimum > height && blocks == minimum - height,
        ConfirmationStep::NoSafeHeight => minimum <= height && !has_safe_height(heights, proposed),
        ConfirmationStep::Prove(plan) => minimum <= height && is_plan(heights, proposed, plan),
    }
}

/// Decides, at `height`, what is to be done about a payment in the block at
/// `proposed_block_height`.
pub fn decide_confirmation(
    available_btc_heights: &[u64],
    proposed_block_height: u64,
    height: u64,
) -> (step: ConfirmationStep)
    requires
        increasing(available_btc_heights@),
    ensures
        is_step(available_btc_heights@.to_set(), proposed_block_height, height, step),
{
    let min_confirmation_height: u128 = proposed_block_height as u128
        + CONFIRMATION_HEIGHT_DELTA as u128;
    if min_confirmation_height > height as u128 {
        return ConfirmationStep::Wait(min_confirmation_height - height as u128);
    }
    let ghost heights = available_btc_heights@;
    if available_btc_heights.len() == 0 || available_btc_heights[0] >= proposed_block_height {
        assert forall|other: u64| #[trigger] heights.to_set().contains(other) implies other
            >= proposed_block_height by {
            assert(heights[heights.index_of(other)] == other);
        }
        return ConfirmationStep::NoSafeHeight;
    }
    assert(heights.to_set().contains(heights[0]));
    ConfirmationStep::Prove(plan_confirmation(available_btc_heights, proposed_block_height))
}

/// There is exactly one thing to be done about a payment: to wait as long as the paying block is
/// the tip or still above it, for as many blocks as lead to the one after it; then to prove it, where
/// a block below it is known to the contract.
pub proof fn law_step(
    heights: Set<u64>,
    proposed: u64,
    height: u64,
    step: ConfirmationStep,
    other: ConfirmationStep,
)
    requires
        is_step(heights, proposed, height, step),
    ensures
        is_step(heights, proposed, height, other) ==> other == step,
        step is Wait <==> height < proposed + CONFIRMATION_HEIGHT_DELTA,
        step is Prove <==> height >= proposed + CONFIRMATION_HEIGHT_DELTA && has_safe_height(
            heights,
            proposed,
        ),
        step is Wait <==> height <= proposed,
        step matches ConfirmationStep::Wait(blocks) ==> height + blocks == proposed + 1,
        step is NoSafeHeight <==> height > proposed && forall|known: u64| #[trigger]
            heights.contains(known) ==> known >= proposed,
        step matches ConfirmationStep::Prove(plan) ==> is_plan(heights, proposed, plan),
{
    match (step, other) {
        (ConfirmationStep::Prove(plan), ConfirmationStep::Prove(other_plan)) => {
            law_plan(heights, proposed, plan, other_plan);
        },
        _ => {},
    }
    if let ConfirmationStep::Prove(plan) = step {
        assert(heights.contains(plan.safe_height) && plan.safe_height < proposed);
    }
    if let ConfirmationStep::Prove(plan) = other {
        assert(heights.contains(plan.safe_height) ==> plan.safe_height >= proposed
            || has_safe_height(heights, proposed));
    }
}

/// What is to be done about the payment for one reservation.
#[derive(Debug, Clone, Copy, PartialEq, Eq)]
pub struct PendingConfirmation {
    pub reservation_id: U256,
    pub step: ConfirmationStep,
}

/// Whether `pending` says what is to be done, at `height`, about a payment that waits.
pub open spec fn is_pending_confirmation(
    reservations: Map<U256, ReservationMetadata>,
    heights: Set<u64>,
    height: u64,
    pending: PendingConfirmation,
) -> bool {
    &&& reservations.dom().contains(pending.reservation_id)
    &&& reservations[pending.reservation_id].pending()
    &&& is_step(
        heights,
        reservations[pending.reservation_id].btc->0.proposed_block_height,
        height,
        pending.step,
    )
}

/// Whether `steps` say, once for every payment that waits and for no other, what is to be done
/// about it at `height`.
pub open spec fn are_pending_confirmations(
    reservations: Map<U256, ReservationMetadata>,
    heights: Set<u64>,
    height: u64,
    steps: Seq<PendingConfirmation>,
) -> bool {
    &&& forall|i: int|
        0 <= i < steps.len() ==> is_pending_confirmation(
            reservations,
            heights,
            height,
            #[trigger] steps[i],
        )
    &&& forall|i: int, j: int|
        0 <= i < j < steps.len() ==> (#[trigger] steps[i]).reservation_id != (
        #[trigger] steps[j]).reservation_id
    &&& forall|id: U256| #[trigger]
        reservations.dom().contains(id) && reservations[id].pending() ==> exists|i: int|
            0 <= i < steps.len() && (#[trigger] steps[i]).reservation_id == id
}

/// Goes through the payments that wait for their confirmations and decides, at `height`, what is
/// to be done about each.
pub fn analyze_reservations_for_sufficient_confirmations(
    height: u64,
    active_reservations: &ActiveReservations,
) -> (steps: Vec<PendingConfirmation>)
    requires
        active_reservations.wf(),
    ensures
        are_pending_confirmations(
            active_reservations@,
            active_reservations.contract_hashes().dom(),
            height,
            steps@,
        ),
{
    let ids = active_reservations.ids();
    let available_btc_heights = active_reservations.contract_heights();
    let ghost heights = active_reservations.contract_hashes().dom();
    assert(available_btc_heights@.to_set() =~= heights);
    let mut steps: Vec<PendingConfirmation> = Vec::new();
    let mut i: usize = 0;
    while i < ids.len()
        invariant
            i <= ids@.len(),
            ids@.no_duplicates(),
            active_reservations.wf(),
            forall|id: U256| ids@.contains(id) <==> active_reservations@.dom().contains(id),
            increasing(available_btc_heights@),
            available_btc_heights@.to_set() == heights,
            heights == active_reservations.contract_hashes().dom(),
            forall|k: int|
                0 <= k < steps@.len() ==> is_pending_confirmation(
                    active_reservations@,
                    heights,
                    height,
                    #[trigger] steps@[k],
                ),
            forall|k: int|
                0 <= k < steps@.len() ==> ids@.take(i as int).contains(
                    (#[trigger] steps@[k]).reservation_id,
                ),
            forall|k: int, l: int|
                0 <= k < l < steps@.len() ==> (#[trigger] steps@[k]).reservation_id != (
                #[trigger] steps@[l]).reservation_id,
            forall|j: int|
                0 <= j < i && active_reservations@[#[trigger] ids@[j]].pending() ==> exists|k: int|
                    0 <= k < steps@.len() && (#[trigger] steps@[k]).reservation_id == ids@[j],
        decreases ids@.len() - i,
    {
        let id = ids[i];
        assert(ids@.contains(ids@[i as int]));
        let ghost before = steps@;
        if let Some(metadata) = active_reservations.get(id) {
            if let Some(btc) = &metadata.btc {
                if metadata.btc_final.is_none() {
                    let step = decide_confirmation(
                        available_btc_heights.as_slice(),
                        btc.proposed_block_height,
                        height,
                    );
                    steps.push(PendingConfirmation { reservation_id: id, step });
                    assert(steps@.last().reservation_id == id);
                }
            }
        }
        proof {
            assert forall|j: int|
                0 <= j < i + 1 && active_reservations@[#[trigger] ids@[j]].pending() implies exists|
                k: int,
            | 0 <= k < steps@.len() && (#[trigger] steps@[k]).reservation_id == ids@[j] by {
                if j < i {
                    let k = choose|k: int|
                        0 <= k < before.len() && (#[trigger] before[k]).reservation_id == ids@[j];
                    assert(steps@[k].reservation_id == ids@[j]);
                }
            }
            assert forall|k: int| 0 <= k < steps@.len() implies ids@.take(i + 1).contains(
                (#[trigger] steps@[k]).reservation_id,
            ) by {
                if k < before.len() {
                    let j = ids@.take(i as int).index_of(before[k].reservation_id);
                    assert(ids@.take(i as int)[j] == before[k].reservation_id);
                    assert(ids@.take(i + 1)[j] == before[k].reservation_id);
                } else {
                    assert(ids@.take(i + 1)[i as int] == id);
                }
            }
            assert forall|k: int, l: int| 0 <= k < l < steps@.len() implies (
            #[trigger] steps@[k]).reservation_id != (#[trigger] steps@[l]).reservation_id by {
                if l == before.len() {
                    let j = ids@.take(i as int).index_of(before[k].reservation_id);
                    assert(ids@.take(i as int)[j] == before[k].reservation_id);
                    assert(ids@[j] != ids@[i as int]);
                }
            }
        }
        i = i + 1;
    }
    assert forall|id: U256| #[trigger]
        active_reservations@.dom().contains(id) && active_reservations@[id].pending() implies exists|
        k: int,
    | 0 <= k < steps@.len() && (#[trigger] steps@[k]).reservation_id == id by {
        assert(ids@.contains(id));
        let j = ids@.index_of(id);
        assert(ids@[j] == id);
    }
    steps
}

/// What is kept of a confirmation that went as planned.
pub open spec fn confirmation_of(
    plan: ConfirmationPlan,
    block_hash: [u8; 32],
    safe_chainwork: [u8; 32],
    blocks: Vec<Block>,
    retarget_block: Block,
) -> BitcoinReservationFinal {
    BitcoinReservationFinal {
        confirmation_height: plan.confirmation_height,
        confirmation_block_hash: block_hash,
        safe_block_height: plan.safe_height,
        safe_block_chainwork: safe_chainwork,
        blocks,
        retarget_block,
        retarget_block_height: plan.retarget_height,
    }
}

/// Notes that the payment for the reservation with `id` is confirmed, with what was downloaded as
/// planned, and has its proof made. `block_hash` is the hash of the block that was analyzed when
/// the confirmation was noticed.
pub fn confirm_payment(
    id: U256,
    plan: ConfirmationPlan,
    block_hash: [u8; 32],
    safe_chainwork: [u8; 32],
    blocks: Vec<Block>,
    retarget_block: Block,
    active_reservations: &mut ActiveReservations,
) -> (input: ProofGenerationInput)
    requires
        old(active_reservations).wf(),
        old(active_reservations)@.dom().contains(id),
    ensures
        final(active_reservations).wf(),
        final(active_reservations).contract_hashes() == old(active_reservations).contract_hashes(),
        final(active_reservations)@ == old(active_reservations)@.insert(
            id,
            old(active_reservations)@[id].with_final(
                confirmation_of(plan, block_hash, safe_chainwork, blocks, retarget_block),
            ),
        ),
        input == ProofGenerationInput::Transaction(TransactionProofInput { reservation_id: id }),
        final(active_reservations)@[id].btc_final matches Some(kept) && {
            &&& kept.confirmation_height == plan.confirmation_height
            &&& kept.confirmation_block_hash == block_hash
            &&& kept.safe_block_height == plan.safe_height
            &&& kept.safe_block_chainwork == safe_chainwork
            &&& kept.blocks == blocks
            &&& kept.retarget_block == retarget_block
            &&& kept.retarget_block_height == plan.retarget_height
        },
{
    active_reservations.update_btc_reservation_final(
        id,
        plan.confirmation_height,
        block_hash,
        plan.safe_height,
        safe_chainwork,
        blocks,
        retarget_block,
        plan.retarget_height,
    );
    ProofGenerationInput::new(id)
}

/// A payment whose confirmation went as planned waits no more, and the block that makes it is among
/// the blocks of its proof: the blocks from the safe one to the confirming one. What is kept names
/// the blocks of the plan: the retarget block by its own height, which is the multiple of 2016 that
/// starts the period of the safe block.
pub proof fn law_confirmed(
    metadata: ReservationMetadata,
    heights: Set<u64>,
    plan: ConfirmationPlan,
    block_hash: [u8; 32],
    safe_chainwork: [u8; 32],
    blocks: Vec<Block>,
    retarget_block: Block,
)
    requires
        metadata.pending(),
        is_plan(heights, metadata.btc->0.proposed_block_height, plan),
        blocks@.len() == plan.confirmation_height - plan.safe_height + 1,
    ensures
        ({
            let confirmed = metadata.with_final(
                confirmation_of(plan, block_hash, safe_chainwork, blocks, retarget_block),
            );
            &&& !confirmed.pending()
            &&& above_safe_block(confirmed)
            &&& paying_block_kept(confirmed)
            &&& confirmed.reservation == metadata.reservation
            &&& confirmed.reserved_vaults == metadata.reserved_vaults
            &&& confirmed.proof == metadata.proof
            &&& confirmed.public_inputs == metadata.public_inputs
            &&& confirmed.btc is Some
            &&& confirmed.btc->0.txid == metadata.btc->0.txid
            &&& confirmed.btc->0.proposed_block_height == metadata.btc->0.proposed_block_height
            &&& confirmed.btc->0.proposed_block_hash == metadata.btc->0.proposed_block_hash
            &&& confirmed.btc->0.confirmation_height == Some(plan.confirmation_height)
            &&& confirmed.btc->0.confirmation_block_hash == Some(block_hash)
            &&& confirmed.btc_final is Some
            &&& confirmed.btc_final->0.retarget_block_height == plan.retarget_height
            &&& confirmed.btc_final->0.retarget_block_height % 2016 == 0
            &&& confirmed.btc_final->0.retarget_block_height
                <= confirmed.btc_final->0.safe_block_height
                < confirmed.btc_final->0.retarget_block_height + 2016
            &&& confirmed.btc_final->0.safe_block_height == plan.safe_height
            &&& confirmed.btc_final->0.confirmation_height == plan.confirmation_height
            &&& confirmed.btc_final->0.confirmation_block_hash == block_hash
            &&& confirmed.btc_final->0.safe_block_chainwork == safe_chainwork
            &&& confirmed.btc_final->0.retarget_block == retarget_block
            &&& confirmed.btc_final->0.blocks == blocks
            &&& confirmed.btc_final->0.blocks@.len() + confirmed.btc_final->0.safe_block_height
                == confirmed.btc_final->0.confirmation_height + 1
        }),
{
    law_plan(heights, metadata.btc->0.proposed_block_height, plan, plan);
}

/// What analyzing a block brought.
pub struct BlockAnalysis {
    pub payments: Vec<FoundPayment>,
    pub confirmations: Vec<PendingConfirmation>,
}

/// The reservations that are watched once the block at `height` was analyzed: first those that are
/// expired are dropped, then the block is searched for payments for the others.
pub open spec fn after_analysis(
    reservations: Map<U256, ReservationMetadata>,
    timestamp: u64,
    height: u64,
    block: Block,
) -> Map<U256, ReservationMetadata> {
    unexpired(reservations, timestamp).map_values(
        |metadata: ReservationMetadata| after_block(metadata, height, block),
    )
}

/// The reservations that are watched once the blocks from the height `first` on were analyzed, one
/// after the other, each at the time in `timestamps`.
pub open spec fn after_analyses(
    reservations: Map<U256, ReservationMetadata>,
    timestamps: Seq<u64>,
    first: u64,
    blocks: Seq<Block>,
) -> Map<U256, ReservationMetadata>
    decreases blocks.len(),
{
    if blocks.len() == 0 {
        reservations
    } else {
        after_analysis(
            after_analyses(reservations, timestamps, first, blocks.drop_last()),
            timestamps[blocks.len() - 1],
            (first + blocks.len() - 1) as u64,
            blocks.last(),
        )
    }
}

/// Whether a reservation was not expired at any of the first `n` times.
pub open spec fn never_expired(
    metadata: ReservationMetadata,
    timestamps: Seq<u64>,
    n: int,
) -> bool {
    forall|i: int| 0 <= i < n ==> !metadata.expired(#[trigger] timestamps[i])
}

/// Once a run of blocks was analyzed, the reservations that are left are those that were expired
/// at none of its times, and of each is known what searching all of the blocks for it brought.
pub proof fn law_after_analyses(
    reservations: Map<U256, ReservationMetadata>,
    timestamps: Seq<u64>,
    first: u64,
    blocks: Seq<Block>,
    id: U256,
)
    requires
        timestamps.len() >= blocks.len(),
    ensures
        ({
            let after = after_analyses(reservations, timestamps, first, blocks);
            &&& after.dom().contains(id) <==> reservations.dom().contains(id) && never_expired(
                reservations[id],
                timestamps,
                blocks.len() as int,
            )
            &&& after.dom().contains(id) ==> after[id] == after_blocks(
                reservations[id],
                first,
                blocks,
            )
        }),
    decreases blocks.len(),
{
    if blocks.len() > 0 {
        let rest = blocks.drop_last();
        let n = blocks.len() as int;
        law_after_analyses(reservations, timestamps, first, rest, id);
        lemma_same_reservation(reservations[id], first, rest);
        assert(never_expired(reservations[id], timestamps, n) <==> never_expired(
            reservations[id],
            timestamps,
            n - 1,
        ) && !reservations[id].expired(timestamps[n - 1]));
    }
}

/// Searching blocks does not change the reservation itself.
proof fn lemma_same_reservation(metadata: ReservationMetadata, first: u64, blocks: Seq<Block>)
    ensures
        after_blocks(metadata, first, blocks).reservation == metadata.reservation,
    decreases blocks.len(),
{
    if blocks.len() > 0 {
        lemma_same_reservation(metadata, first, blocks.drop_last());
    }
}

/// Analyzes the block at `height`: drops the reservations that are expired, searches the block for
/// payments, and decides what is to be done about the payments that wait.
pub fn analyze_block(
    current_timestamp: u64,
    height: u64,
    block: &Block,
    active_reservations: &mut ActiveReservations,
) -> (analysis: BlockAnalysis)
    requires
        old(active_reservations).wf(),
    ensures
        final(active_reservations).wf(),
        final(active_reservations)@ == after_analysis(
            old(active_reservations)@,
            current_timestamp,
            height,
            *block,
        ),
        final(active_reservations).contract_hashes() == old(active_reservations).contract_hashes(),
        forall|payment: FoundPayment|
            analysis.payments@.contains(payment) <==> is_found(
                unexpired(old(active_reservations)@, current_timestamp),
                *block,
                payment,
            ),
        analysis.payments@.no_duplicates(),
        are_pending_confirmations(
            final(active_reservations)@,
            final(active_reservations).contract_hashes().dom(),
            height,
            analysis.confirmations@,
        ),
{
    active_reservations.drop_expired_reservations(current_timestamp);
    let payments = analyze_block_for_payments(height, block, active_reservations);
    let confirmations = analyze_reservations_for_sufficient_confirmations(
        height,
        active_reservations,
    );
    BlockAnalysis { payments, confirmations }
}

/// The error that a download ends in when the hash of the block at `height` was not given.
pub fn block_hash_failed(height: u64, cause: &HypernodeError) -> (error: HypernodeError)
    ensures
        error@ == ErrorView::RpcError(
            colon_joined(
                "Failed to get block hash for height "@ + decimal(height as nat),
                cause@.shown(),
            ),
        ),
{
    let mut doing = "Failed to get block hash for height ".to_owned();
    doing.append(decimal_u64(height).as_str());
    HypernodeError::rpc(doing.as_str(), cause)
}

/// The error that a download ends in when the block with `block_hash` was not given.
pub fn block_failed(block_hash: &[u8; 32], cause: &HypernodeError) -> (error: HypernodeError)
    ensures
        error@ == ErrorView::RpcError(
            colon_joined("Failed to get block for hash "@ + hex_text(block_hash@), cause@.shown()),
        ),
        error@ == ErrorView::RpcError(
            colon_joined(
                "Failed to get block for hash "@ + hash_text(*block_hash),
                cause@.shown(),
            ),
        ),
{
    let mut doing = "Failed to get block for hash ".to_owned();
    doing.append(hex_encode(block_hash.as_slice()).as_str());
    HypernodeError::rpc(doing.as_str(), cause)
}

/// Whether a script inscribes `nonce`: the bytes 0x6a and 0x20, then the bytes of the nonce in their
/// own order, and nothing else.
pub open spec fn inscribes(script: Seq<u8>, nonce: [u8; 32]) -> bool {
    &&& script.len() == 34
    &&& script[0] == 0x6a
    &&& script[1] == 0x20
    &&& forall|i: int| 0 <= i < 32 ==> #[trigger] script[2 + i] == nonce@[i]
}

/// Whether the outputs make what is owed to the owners of the vaults: the `i`-th payout by the
/// output `chosen[i]`, and no output for two payouts.
pub open spec fn makes_payouts(
    outputs: Seq<TxOut>,
    metadata: ReservationMetadata,
    chosen: Seq<int>,
) -> bool {
    let vaults = metadata.reserved_vaults@;
    let sats = metadata.reservation.expected_sats_output@;
    &&& chosen.no_duplicates()
    &&& forall|i: int|
        #![trigger chosen[i]]
        0 <= i < vaults.len() && i < sats.len() ==> {
            &&& 0 <= chosen[i] < outputs.len()
            &&& i < chosen.len()
            &&& outputs[chosen[i]].value == sats[i]
            &&& outputs[chosen[i]].script_pubkey@ == vaults[i].btc_payout_locking_script@
        }
}

/// Whether a transaction pays for a reservation: one output inscribes the nonce of the order, and
/// the outputs make what is owed.
pub open spec fn pays(tx: Transaction, metadata: ReservationMetadata) -> bool {
    &&& exists|o: int|
        0 <= o < tx.outputs@.len() && inscribes(
            (#[trigger] tx.outputs@[o]).script_pubkey@,
            metadata.reservation.nonce,
        )
    &&& exists|chosen: Seq<int>| makes_payouts(tx.outputs@, metadata, chosen)
}

/// The script for a nonce is the one that inscribes it.
proof fn lemma_inscription(script: Seq<u8>, nonce: [u8; 32])
    ensures
        inscribes(script, nonce) <==> script == inscription(nonce@),
{
    if inscribes(script, nonce) {
        assert forall|k: int| 0 <= k < 34 implies script[k] == inscription(nonce@)[k] by {
            if k >= 2 {
                assert(script[2 + (k - 2)] == nonce@[k - 2]);
            }
        }
        assert(script =~= inscription(nonce@));
    }
}

/// Taking out one payment takes it out once, and no other.
proof fn lemma_times_in_remove(payments: Seq<TxOutView>, j: int, payout: TxOutView)
    requires
        0 <= j < payments.len(),
    ensures
        times_in(payments, payout) == times_in(payments.remove(j), payout) + if payments[j]
            == payout {
            1nat
        } else {
            0nat
        },
    decreases payments.len(),
{
    if j == payments.len() - 1 {
        assert(payments.remove(j) =~= payments.drop_last());
    } else {
        let rest = payments.drop_last();
        lemma_times_in_remove(rest, j, payout);
        assert(payments.remove(j).drop_last() =~= rest.remove(j));
        assert(payments.remove(j).last() == payments.last());
        assert(rest[j] == payments[j]);
    }
}

/// Where a payout is made at least once, one of the payments makes it.
proof fn lemma_times_in_positive(payments: Seq<TxOutView>, payout: TxOutView) -> (j: int)
    requires
        times_in(payments, payout) > 0,
    ensures
        0 <= j < payments.len(),
        payments[j] == payout,
    decreases payments.len(),
{
    if payments.last() == payout {
        payments.len() - 1
    } else {
        lemma_times_in_positive(payments.drop_last(), payout)
    }
}

/// Where every payout has an output of its own, the outputs make every payout often enough.
proof fn lemma_chosen_covers(
    outputs: Seq<TxOutView>,
    owed: Seq<TxOutView>,
    chosen: Seq<int>,
    payout: TxOutView,
)
    requires
        chosen.len() == owed.len(),
        chosen.no_duplicates(),
        forall|i: int|
            0 <= i < owed.len() ==> 0 <= #[trigger] chosen[i] < outputs.len() && outputs[chosen[i]]
                == owed[i],
    ensures
        times_in(owed, payout) <= times_in(outputs, payout),
    decreases owed.len(),
{
    if owed.len() > 0 {
        let last = owed.len() - 1;
        let j = chosen[last];
        let fewer = outputs.remove(j);
        let rest = Seq::new(
            last as nat,
            |i: int|
                if chosen[i] < j {
                    chosen[i]
                } else {
                    chosen[i] - 1
                },
        );
        assert forall|i: int| 0 <= i < owed.drop_last().len() implies 0 <= #[trigger] rest[i]
            < fewer.len() && fewer[rest[i]] == owed.drop_last()[i] by {
            assert(chosen[i] != chosen[last]);
        }
        assert(rest.no_duplicates()) by {
            assert forall|a: int, b: int|
                0 <= a < rest.len() && 0 <= b < rest.len() && a != b implies rest[a]
                != rest[b] by {
                assert(chosen[a] != chosen[b]);
                assert(chosen[a] != chosen[last]);
                assert(chosen[b] != chosen[last]);
            }
        }
        lemma_chosen_covers(fewer, owed.drop_last(), rest, payout);
        lemma_times_in_remove(outputs, j, payout);
    }
}

/// Where the outputs make every payout often enough, every payout can have an output of its own.
proof fn lemma_covers_chosen(outputs: Seq<TxOutView>, owed: Seq<TxOutView>) -> (chosen: Seq<int>)
    requires
        forall|payout: TxOutView| #[trigger]
            times_in(owed, payout) <= times_in(outputs, payout),
    ensures
        chosen.len() == owed.len(),
        chosen.no_duplicates(),
        forall|i: int|
            0 <= i < owed.len() ==> 0 <= #[trigger] chosen[i] < outputs.len() && outputs[chosen[i]]
                == owed[i],
    decreases owed.len(),
{
    if owed.len() == 0 {
        Seq::empty()
    } else {
        let last = owed.len() - 1;
        assert(times_in(owed, owed.last()) <= times_in(outputs, owed.last()));
        let j = lemma_times_in_positive(outputs, owed.last());
        let fewer = outputs.remove(j);
        assert forall|payout: TxOutView| #[trigger]
            times_in(owed.drop_last(), payout) <= times_in(fewer, payout) by {
            lemma_times_in_remove(outputs, j, payout);
            assert(times_in(owed, payout) <= times_in(outputs, payout));
        }
        let rest = lemma_covers_chosen(fewer, owed.drop_last());
        let chosen = Seq::new(
            owed.len(),
            |i: int|
                if i == last {
                    j
                } else if rest[i] < j {
                    rest[i]
                } else {
                    rest[i] + 1
                },
        );
        assert forall|i: int| 0 <= i < owed.len() implies 0 <= #[trigger] chosen[i] < outputs.len()
            && outputs[chosen[i]] == owed[i] by {
            if i < last {
                assert(0 <= rest[i] < fewer.len() && fewer[rest[i]] == owed.drop_last()[i]);
            }
        }
        assert(chosen.no_duplicates()) by {
            assert forall|a: int, b: int|
                0 <= a < chosen.len() && 0 <= b < chosen.len() && a != b implies chosen[a]
                != chosen[b] by {
                if a < last && b < last {
                    assert(rest[a] != rest[b]);
                }
            }
        }
        chosen
    }
}

/// A transaction is taken for a payment exactly when one output inscribes the nonce of the order,
/// byte by byte, and for every payout that is owed there is another output with just that value and
/// just that script.
pub proof fn law_payment(tx: Transaction, metadata: ReservationMetadata)
    ensures
        is_payment(tx, metadata) <==> pays(tx, metadata),
{
    let outputs = tx.outputs@;
    let views = outputs.map_values(|output: TxOut| output@);
    let vaults = metadata.reserved_vaults@;
    let sats = metadata.reservation.expected_sats_output@;
    let owed = payouts(vaults, sats);
    let nonce = metadata.reservation.nonce;
    assert forall|o: int| 0 <= o < outputs.len() implies inscribes(
        (#[trigger] outputs[o]).script_pubkey@,
        nonce,
    ) == (outputs[o].script_pubkey@ == inscription(nonce@)) by {
        lemma_inscription(outputs[o].script_pubkey@, nonce);
    }
    if exists|chosen: Seq<int>| makes_payouts(outputs, metadata, chosen) {
        let chosen = choose|chosen: Seq<int>| makes_payouts(outputs, metadata, chosen);
        assert(owed.len() > 0 ==> owed.len() <= chosen.len()) by {
            if owed.len() > 0 {
                let i = owed.len() - 1;
                assert(0 <= chosen[i] < outputs.len());
            }
        }
        let exact = chosen.take(owed.len() as int);
        if owed.len() > 0 {
            assert forall|i: int| 0 <= i < owed.len() implies 0 <= #[trigger] exact[i] < views.len()
                && views[exact[i]] == owed[i] by {
                assert(exact[i] == chosen[i]);
                assert(0 <= chosen[i] < outputs.len());
                assert(views[chosen[i]] == outputs[chosen[i]]@);
            }
            assert(exact.no_duplicates()) by {
                assert forall|a: int, b: int|
                    0 <= a < exact.len() && 0 <= b < exact.len() && a != b implies exact[a]
                    != exact[b] by {
                    assert(chosen[a] != chosen[b]);
                }
            }
            assert forall|i: int| 0 <= i < owed.len() implies times_in(owed, #[trigger] owed[i])
                <= times_in(views, owed[i]) by {
                lemma_chosen_covers(views, owed, exact, owed[i]);
            }
        }
        assert(covers(views, owed));
    }
    if outputs_match(outputs, metadata) {
        assert forall|payout: TxOutView| #[trigger]
            times_in(owed, payout) <= times_in(views, payout) by {
            if times_in(owed, payout) > 0 {
                let i = lemma_times_in_positive(owed, payout);
                assert(times_in(owed, owed[i]) <= times_in(views, owed[i]));
            }
        }
        let chosen = lemma_covers_chosen(views, owed);
        assert forall|i: int|
            #![trigger chosen[i]]
            0 <= i < vaults.len() && i < sats.len() implies {
            &&& 0 <= chosen[i] < outputs.len()
            &&& i < chosen.len()
            &&& outputs[chosen[i]].value == sats[i]
            &&& outputs[chosen[i]].script_pubkey@ == vaults[i].btc_payout_locking_script@
        } by {
            assert(i < owed.len());
            assert(views[chosen[i]] == outputs[chosen[i]]@);
            assert(views[chosen[i]] == owed[i]);
        }
        assert(makes_payouts(outputs, metadata, chosen));
    }
}

/// What is found in a block: for a reservation that is watched, the last transaction that pays for
/// it, and nothing where none does.
pub proof fn law_found(
    reservations: Map<U256, ReservationMetadata>,
    block: Block,
    payment: FoundPayment,
)
    ensures
        is_found(reservations, block, payment) <==> {
            &&& reservations.dom().contains(payment.reservation_id)
            &&& exists|k: int|
                {
                    &&& 0 <= k < block.transactions@.len()
                    &&& (#[trigger] block.transactions@[k]).txid == payment.txid
                    &&& pays(block.transactions@[k], reservations[payment.reservation_id])
                    &&& forall|j: int|
                        k < j < block.transactions@.len() ==> !pays(
                            #[trigger] block.transactions@[j],
                            reservations[payment.reservation_id],
                        )
                }
        },
{
    let transactions = block.transactions@;
    let metadata = reservations[payment.reservation_id];
    law_last_payment(transactions, metadata);
    assert forall|j: int| 0 <= j < transactions.len() implies is_payment(
        #[trigger] transactions[j],
        metadata,
    ) == pays(transactions[j], metadata) by {
        law_payment(transactions[j], metadata);
    }
    if reservations.dom().contains(payment.reservation_id) {
        if let Some(txid) = last_payment(transactions, metadata) {
            let i = choose|i: int|
                {
                    &&& 0 <= i < transactions.len()
                    &&& (#[trigger] transactions[i]).txid == txid
                    &&& is_payment(transactions[i], metadata)
                    &&& forall|j: int|
                        i < j < transactions.len() ==> !is_payment(
                            #[trigger] transactions[j],
                            metadata,
                        )
                };
            assert(transactions[i].txid == txid && pays(transactions[i], metadata));
            assert forall|k: int|
                {
                    &&& 0 <= k < transactions.len()
                    &&& pays(#[trigger] transactions[k], metadata)
                    &&& forall|j: int|
                        k < j < transactions.len() ==> !pays(#[trigger] transactions[j], metadata)
                } implies k == i by {
                if k < i {
                    assert(!pays(transactions[i], metadata));
                } else if i < k {
                    assert(!is_payment(transactions[k], metadata));
                }
            }
        }
    }
}

/// A block with one transaction: where an output carries the byte 0x6a, the byte 0x20 and the bytes
/// of a reservation's nonce in their own order, and every payout has an output of its own, the
/// transaction is found for the reservation and noted with its block.
pub proof fn law_lone_payment(
    reservations: Map<U256, ReservationMetadata>,
    id: U256,
    height: u64,
    block: Block,
    carrier: int,
    chosen: Seq<int>,
)
    requires
        reservations.dom().contains(id),
        block.transactions@.len() == 1,
        ({
            let outputs = block.transactions@[0].outputs@;
            let script = outputs[carrier].script_pubkey@;
            let nonce = reservations[id].reservation.nonce@;
            let vaults = reservations[id].reserved_vaults@;
            let sats = reservations[id].reservation.expected_sats_output@;
            &&& 0 <= carrier < outputs.len()
            &&& script.len() == 34
            &&& script[0] == 0x6a
            &&& script[1] == 0x20
            &&& forall|i: int| 0 <= i < 32 ==> #[trigger] script[2 + i] == nonce[i]
            &&& chosen.no_duplicates()
            &&& forall|i: int|
                #![trigger chosen[i]]
                0 <= i < vaults.len() && i < sats.len() ==> {
                    &&& 0 <= chosen[i] < outputs.len()
                    &&& i < chosen.len()
                    &&& outputs[chosen[i]].value == sats[i]
                    &&& outputs[chosen[i]].script_pubkey@ == vaults[i].btc_payout_locking_script@
                }
        }),
    ensures
        ({
            let tx = block.transactions@[0];
            let after = after_block(reservations[id], height, block);
            &&& is_found(reservations, block, FoundPayment { reservation_id: id, txid: tx.txid })
            &&& after.btc is Some
            &&& after.btc->0.proposed_block_height == height
            &&& after.btc->0.proposed_block_hash == block.block_hash
            &&& after.btc->0.txid == tx.txid
        }),
{
    let tx = block.transactions@[0];
    let metadata = reservations[id];
    assert(inscribes(tx.outputs@[carrier].script_pubkey@, metadata.reservation.nonce));
    assert(makes_payouts(tx.outputs@, metadata, chosen));
    assert(pays(tx, metadata));
    law_payment(tx, metadata);
    assert(block.transactions@.last() == tx);
}

/// A block with one transaction: what is found for a reservation is that transaction, and then one of
/// its outputs carries the byte 0x6a, the byte 0x20 and the bytes of the reservation's nonce in their
/// own order, and every payout has an output of its own, with just that value and just that script.
pub proof fn law_lone_found(
    reservations: Map<U256, ReservationMetadata>,
    block: Block,
    payment: FoundPayment,
)
    requires
        block.transactions@.len() == 1,
        is_found(reservations, block, payment),
    ensures
        reservations.dom().contains(payment.reservation_id),
        payment.txid == block.transactions@[0].txid,
        exists|o: int|
            #![trigger block.transactions@[0].outputs@[o]]
            {
                let outputs = block.transactions@[0].outputs@;
                let script = outputs[o].script_pubkey@;
                let nonce = reservations[payment.reservation_id].reservation.nonce@;
                &&& 0 <= o < outputs.len()
                &&& script.len() == 34
                &&& script[0] == 0x6a
                &&& script[1] == 0x20
                &&& forall|i: int| 0 <= i < 32 ==> nonce[i] == #[trigger] script[2 + i]
            },
        exists|chosen: Seq<int>|
            {
                let outputs = block.transactions@[0].outputs@;
                let vaults = reservations[payment.reservation_id].reserved_vaults@;
                let sats =
                    reservations[payment.reservation_id].reservation.expected_sats_output@;
                &&& #[trigger] chosen.no_duplicates()
                &&& forall|i: int|
                    #![trigger chosen[i]]
                    0 <= i < vaults.len() && i < sats.len() ==> {
                        &&& 0 <= chosen[i] < outputs.len()
                        &&& i < chosen.len()
                        &&& sats[i] == outputs[chosen[i]].value
                        &&& vaults[i].btc_payout_locking_script@
                            == outputs[chosen[i]].script_pubkey@
                    }
            },
{
    let tx = block.transactions@[0];
    let metadata = reservations[payment.reservation_id];
    law_payment(tx, metadata);
    assert(block.transactions@.last() == tx);
    assert(block.transactions@.drop_last().len() == 0);
    assert(last_payment(block.transactions@.drop_last(), metadata) is None);
    assert(pays(tx, metadata));
    let o = choose|o: int|
        0 <= o < tx.outputs@.len() && inscribes(
            (#[trigger] tx.outputs@[o]).script_pubkey@,
            metadata.reservation.nonce,
        );
    assert(inscribes(tx.outputs@[o].script_pubkey@, metadata.reservation.nonce));
    let chosen = choose|chosen: Seq<int>| makes_payouts(tx.outputs@, metadata, chosen);
    assert(chosen.no_duplicates());
}

/// A block with one transaction: where none of its outputs carries the byte 0x6a, the byte 0x20 and
/// the bytes of a reservation's nonce in their own order, nothing is found for the reservation.
pub proof fn law_lone_transaction_without_nonce(
    reservations: Map<U256, ReservationMetadata>,
    id: U256,
    height: u64,
    block: Block,
)
    requires
        reservations.dom().contains(id),
        block.transactions@.len() == 1,
        forall|o: int|
            0 <= o < block.transactions@[0].outputs@.len() ==> {
                let script = (#[trigger] block.transactions@[0].outputs@[o]).script_pubkey@;
                ||| script.len() != 34
                ||| script[0] != 0x6a
                ||| script[1] != 0x20
                ||| exists|i: int|
                    0 <= i < 32 && #[trigger] script[2 + i] != reservations[id].reservation.nonce@[i]
            },
    ensures
        forall|payment: FoundPayment| #[trigger]
            is_found(reservations, block, payment) ==> payment.reservation_id != id,
        after_block(reservations[id], height, block) == reservations[id],
{
    let tx = block.transactions@[0];
    let metadata = reservations[id];
    law_payment(tx, metadata);
    if pays(tx, metadata) {
        let o = choose|o: int|
            0 <= o < tx.outputs@.len() && inscribes(
                (#[trigger] tx.outputs@[o]).script_pubkey@,
                metadata.reservation.nonce,
            );
        let script = tx.outputs@[o].script_pubkey@;
        assert(inscribes(script, metadata.reservation.nonce));
        let i = choose|i: int|
            0 <= i < 32 && #[trigger] script[2 + i] != metadata.reservation.nonce@[i];
        assert(script[2 + i] == metadata.reservation.nonce@[i]);
    }
    assert(!is_payment(tx, metadata));
    assert(block.transactions@.last() == tx);
    assert(block.transactions@.drop_last().len() == 0);
    assert(last_payment(block.transactions@.drop_last(), metadata) is None);
    assert(last_payment(block.transactions@, metadata) is None);
}

/// A payment that is found is noted with the height and the hash of its block and with its id, not
/// confirmed yet; nothing else of the reservation changes, and of one that no payment is found for
/// nothing at all.
pub proof fn law_noted(
    reservations: Map<U256, ReservationMetadata>,
    id: U256,
    height: u64,
    block: Block,
)
    requires
        reservations.dom().contains(id),
    ensures
        ({
            let before = reservations[id];
            let after = after_block(before, height, block);
            &&& forall|payment: FoundPayment| #[trigger]
                is_found(reservations, block, payment) && payment.reservation_id == id ==> {
                    &&& after.btc is Some
                    &&& after.btc->0.proposed_block_height == height
                    &&& after.btc->0.proposed_block_hash == block.block_hash
                    &&& after.btc->0.txid == payment.txid
                    &&& after.btc->0.confirmation_height is None
                    &&& after.btc->0.confirmation_block_hash is None
                }
            &&& (forall|payment: FoundPayment| #[trigger]
                is_found(reservations, block, payment) ==> payment.reservation_id != id) ==> after
                == before
            &&& after.reservation == before.reservation
            &&& after.reserved_vaults == before.reserved_vaults
            &&& after.btc_final == before.btc_final
            &&& after.proof == before.proof
            &&& after.public_inputs == before.public_inputs
        }),
{
    if let Some(txid) = last_payment(block.transactions@, reservations[id]) {
        assert(is_found(reservations, block, FoundPayment { reservation_id: id, txid }));
    }
}

/// A payment is confirmed, planned or waited for exactly when it was seen and nothing is kept of its
/// confirmation; about each such payment one thing is done, which goes by the block that it was seen
/// in.
pub proof fn law_pending(
    reservations: Map<U256, ReservationMetadata>,
    heights: Set<u64>,
    height: u64,
    steps: Seq<PendingConfirmation>,
    id: U256,
)
    requires
        are_pending_confirmations(reservations, heights, height, steps),
    ensures
        (exists|i: int| 0 <= i < steps.len() && (#[trigger] steps[i]).reservation_id == id) <==> {
            &&& reservations.dom().contains(id)
            &&& reservations[id].btc is Some
            &&& reservations[id].btc_final is None
        },
        forall|i: int, j: int|
            0 <= i < steps.len() && 0 <= j < steps.len() && (#[trigger] steps[i]).reservation_id
                == (#[trigger] steps[j]).reservation_id ==> i == j,
        forall|i: int|
            0 <= i < steps.len() && (#[trigger] steps[i]).reservation_id == id ==> {
                let proposed = reservations[id].btc->0.proposed_block_height;
                match steps[i].step {
                    ConfirmationStep::Wait(blocks) => height + blocks == proposed + 1 && blocks > 0,
                    ConfirmationStep::NoSafeHeight => height > proposed && forall|known: u64|
                        #[trigger] heights.contains(known) ==> known >= proposed,
                    ConfirmationStep::Prove(plan) => {
                        &&& height > proposed
                        &&& plan.safe_height < proposed < plan.confirmation_height
                        &&& is_plan(heights, proposed, plan)
                    },
                }
            },
{
    if exists|i: int| 0 <= i < steps.len() && (#[trigger] steps[i]).reservation_id == id {
        let i = choose|i: int| 0 <= i < steps.len() && (#[trigger] steps[i]).reservation_id == id;
        assert(is_pending_confirmation(reservations, heights, height, steps[i]));
    }
    assert forall|i: int, j: int|
        0 <= i < steps.len() && 0 <= j < steps.len() && (#[trigger] steps[i]).reservation_id == (
        #[trigger] steps[j]).reservation_id implies i == j by {
        if i < j {
            assert(steps[i].reservation_id != steps[j].reservation_id);
        } else if j < i {
            assert(steps[j].reservation_id != steps[i].reservation_id);
        }
    }
    assert forall|i: int| 0 <= i < steps.len() && (#[trigger] steps[i]).reservation_id == id implies {
        let proposed = reservations[id].btc->0.proposed_block_height;
        match steps[i].step {
            ConfirmationStep::Wait(blocks) => height + blocks == proposed + 1 && blocks > 0,
            ConfirmationStep::NoSafeHeight => height > proposed && forall|known: u64| #[trigger]
                heights.contains(known) ==> known >= proposed,
            ConfirmationStep::Prove(plan) => {
                &&& height > proposed
                &&& plan.safe_height < proposed < plan.confirmation_height
                &&& is_plan(heights, proposed, plan)
            },
        }
    } by {
        assert(is_pending_confirmation(reservations, heights, height, steps[i]));
        let proposed = reservations[id].btc->0.proposed_block_height;
        law_step(heights, proposed, height, steps[i].step, steps[i].step);
        if let ConfirmationStep::Prove(plan) = steps[i].step {
            law_plan(heights, proposed, plan, plan);
        }
    }
}

/// Analyzing a block at some time leaves exactly the reservations whose last second is not before
/// that time, and of each is known what searching the block for it brought.
pub proof fn law_after_analysis(
    reservations: Map<U256, ReservationMetadata>,
    timestamp: u64,
    height: u64,
    block: Block,
    id: U256,
)
    ensures
        ({
            let after = after_analysis(reservations, timestamp, height, block);
            &&& after.dom().contains(id) <==> reservations.dom().contains(id) && timestamp
                <= reservations[id].reservation.unlock_timestamp
            &&& after.dom().contains(id) ==> after[id] == after_block(
                reservations[id],
                height,
                block,
            )
        }),
{
}

} // verus!
