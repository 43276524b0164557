//! What a proof is made from, and what becomes of it.

use vstd::arithmetic::div_mod::{
    lemma_div_multiples_vanish, lemma_fundamental_div_mod, lemma_small_mod,
};
use vstd::arithmetic::mul::lemma_mul_is_commutative;
use vstd::arithmetic::power::{lemma_pow_adds, lemma_pow_positive, pow};
use vstd::prelude::*;

use crate::block::Block;
use crate::btc_indexer::{confirmation_of, is_plan, law_confirmed, ConfirmationPlan};
use crate::bytes::{
    hex_decode, hex_error_text, hex_text, hex_value, is_hex, law_hex_marks, law_hex_round_trip,
    law_marked_hex, to_little_endian, trim_hex_marks, without_hex_marks,
};
use crate::error::{outcome, ErrorView, HypernodeError};
use crate::proof_broadcast::{
    broadcast_error, paying_block_kept, BlockBroadcastInput, ProofBroadcastInput,
    TransactionBroadcastInput,
};
use crate::store::{
    ActiveReservations, BitcoinReservationFinal, DepositVault, ReservationMetadata,
};
use crate::text::{colon_joined, decimal, join_with_colon};
use crate::u256::{lemma_u256_bounded, modulus, U256};

verus! {

/// How many units of a token with 18 decimals make one of a token with `token_decimals`, which are
/// fewer.
pub open spec fn scale(token_decimals: u8) -> nat {
    pow(10, (18 - token_decimals) as nat) as nat
}

/// `amount` of a token with `token_decimals` decimals, counted in units of a token with 18. The
/// product wraps around at two to the power 256.
pub open spec fn buffered(amount: nat, token_decimals: u8) -> nat {
    if token_decimals < 18 {
        (amount * scale(token_decimals)) % modulus()
    } else {
        amount
    }
}

/// `amount` counted in units of a token with 18 decimals, in those of a token with
/// `token_decimals`, rounded down.
pub open spec fn unbuffered(amount: nat, token_decimals: u8) -> nat {
    if token_decimals < 18 {
        amount / scale(token_decimals)
    } else {
        amount
    }
}

/// Ten to the power 18.
proof fn lemma_ten_to_the_18()
    ensures
        pow(10, 18) == 1_000_000_000_000_000_000,
{
    assert(pow(10, 3) == 1000) by {
        reveal_with_fuel(pow, 4);
    }
    lemma_pow_adds(10, 3, 3);
    assert(pow(10, 6) == 1_000_000);
    lemma_pow_adds(10, 6, 6);
    assert(pow(10, 12) == 1_000_000_000_000);
    lemma_pow_adds(10, 12, 6);
    assert(pow(10, 18) == 1_000_000_000_000 * 1_000_000);
}

/// Every scale is a number from one to ten to the power 18.
proof fn lemma_scale(token_decimals: u8)
    requires
        token_decimals < 18,
    ensures
        1 <= scale(token_decimals) <= 1_000_000_000_000_000_000,
        scale(token_decimals) == pow(10, (18 - token_decimals) as nat),
{
    let e = (18 - token_decimals) as nat;
    lemma_pow_positive(10, e);
    lemma_pow_positive(10, token_decimals as nat);
    lemma_pow_adds(10, e, token_decimals as nat);
    lemma_ten_to_the_18();
    let a = pow(10, e);
    let b = pow(10, token_decimals as nat);
    assert(a <= a * b) by (nonlinear_arith)
        requires
            a > 0,
            b > 0,
    ;
}

/// The scale as a number of the contract.
fn scale_of(token_decimals: u8) -> (r: U256)
    requires
        token_decimals < 18,
    ensures
        r@ == scale(token_decimals),
{
    proof {
        lemma_scale(token_decimals);
        lemma_small_mod(scale(token_decimals), modulus());
    }
    U256::from_u64(10).to_the(U256::from_u64((18 - token_decimals) as u64))
}

/// Counts `amount` of a token with `token_decimals` decimals in units of a token with 18.
pub fn buffer_to_18_decimals(amount: U256, token_decimals: u8) -> (r: U256)
    ensures
        r@ == buffered(amount@, token_decimals),
{
    if token_decimals < 18 {
        amount.times(scale_of(token_decimals))
    } else {
        amount
    }
}

/// Counts `amount`, which is in units of a token with 18 decimals, in those of a token with
/// `token_decimals`.
pub fn unbuffer_from_18_decimals(amount: U256, token_decimals: u8) -> (r: U256)
    ensures
        r@ == unbuffered(amount@, token_decimals),
{
    if token_decimals < 18 {
        proof {
            lemma_scale(token_decimals);
        }
        amount.divided_by(scale_of(token_decimals))
    } else {
        amount
    }
}

/// How many satoshis `wei` is worth where one satoshi is worth `rate` wei, rounded down.
pub open spec fn sats_worth(wei: nat, rate: nat) -> nat {
    wei / rate
}

/// How many wei `sats` is worth where one satoshi is worth `rate` wei. The product wraps around at
/// two to the power 256.
pub open spec fn wei_worth(sats: nat, rate: nat) -> nat {
    (sats * rate) % modulus()
}

/// How many satoshis `wei_amount` is worth, rounded down.
pub fn wei_to_sats(wei_amount: U256, wei_sats_exchange_rate: U256) -> (r: U256)
    requires
        wei_sats_exchange_rate@ != 0,
    ensures
        r@ == wei_amount@ / wei_sats_exchange_rate@,
        r@ == sats_worth(wei_amount@, wei_sats_exchange_rate@),
{
    wei_amount.divided_by(wei_sats_exchange_rate)
}

/// How many wei `sats_amount` is worth. The product wraps around at two to the power 256.
pub fn sats_to_wei(sats_amount: U256, wei_sats_exchange_rate: U256) -> (r: U256)
    ensures
        r@ == (sats_amount@ * wei_sats_exchange_rate@) % modulus(),
        r@ == wei_worth(sats_amount@, wei_sats_exchange_rate@),
{
    sats_amount.times(wei_sats_exchange_rate)
}

/// An amount that was counted in finer units, without wrapping around, comes back unchanged.
pub proof fn law_buffer_round_trip(amount: nat, token_decimals: u8)
    requires
        token_decimals < 18 ==> amount * scale(token_decimals) < modulus(),
    ensures
        unbuffered(buffered(amount, token_decimals), token_decimals) == amount,
{
    if token_decimals < 18 {
        let scale = scale(token_decimals);
        lemma_scale(token_decimals);
        lemma_small_mod(amount * scale, modulus());
        lemma_div_multiples_vanish(amount as int, scale as int);
        lemma_mul_is_commutative(amount as int, scale as int);
    }
}

/// Counting an amount in coarser units and back never makes it more, never wraps around, and loses
/// less than one coarser unit.
pub proof fn law_unbuffer_rounds_down(amount: U256, token_decimals: u8)
    ensures
        ({
            let back = buffered(unbuffered(amount@, token_decimals), token_decimals);
            &&& back <= amount@
            &&& token_decimals < 18 ==> amount@ < back + scale(token_decimals)
            &&& token_decimals >= 18 ==> amount@ == back
        }),
        ({
            let coarse = unbuffered(amount@, token_decimals);
            let unit = pow(10, (18 - token_decimals) as nat);
            &&& token_decimals < 18 ==> coarse * unit <= amount@ < coarse * unit + unit
            &&& token_decimals >= 18 ==> coarse == amount@
        }),
{
    if token_decimals < 18 {
        let scale = scale(token_decimals);
        let coarse = amount@ / scale;
        lemma_scale(token_decimals);
        lemma_u256_bounded(amount);
        lemma_fundamental_div_mod(amount@ as int, scale as int);
        lemma_mul_is_commutative(coarse as int, scale as int);
        lemma_small_mod(coarse * scale, modulus());
    }
}

/// Satoshis that were turned into wei, without wrapping around, come back unchanged.
pub proof fn law_sats_round_trip(sats: nat, rate: nat)
    requires
        rate != 0,
        sats * rate < modulus(),
    ensures
        ((sats * rate) % modulus()) / rate == sats,
        sats_worth(wei_worth(sats, rate), rate) == sats,
        wei_worth(sats, rate) == sats * rate,
{
    lemma_small_mod(sats * rate, modulus());
    lemma_mul_is_commutative(sats as int, rate as int);
    lemma_div_multiples_vanish(sats as int, rate as int);
}

/// Wei are worth the most satoshis that are not worth more wei.
pub proof fn law_sats_round_down(wei: nat, rate: nat)
    requires
        rate != 0,
    ensures
        sats_worth(wei, rate) * rate <= wei < (sats_worth(wei, rate) + 1) * rate,
{
    let sats = sats_worth(wei, rate);
    lemma_fundamental_div_mod(wei as int, rate as int);
    lemma_mul_is_commutative(sats as int, rate as int);
    assert((sats + 1) * rate == sats * rate + rate) by (nonlinear_arith);
}

/// An amount in units of 18 decimals is ten to the power 18 times what it is in units of none: as
/// many digits are put behind it as it lacks, as long as it does not wrap around. With 18 decimals or
/// more it stays as it is.
pub proof fn law_buffer(amount: nat, token_decimals: u8)
    requires
        token_decimals < 18 ==> amount * pow(10, (18 - token_decimals) as nat) < modulus(),
    ensures
        token_decimals <= 18 ==> buffered(amount, token_decimals) * pow(10, token_decimals as nat)
            == amount * pow(10, 18),
        token_decimals >= 18 ==> buffered(amount, token_decimals) == amount && unbuffered(
            amount,
            token_decimals,
        ) == amount,
{
    if token_decimals < 18 {
        let e = (18 - token_decimals) as nat;
        let a = pow(10, e);
        let b = pow(10, token_decimals as nat);
        lemma_scale(token_decimals);
        lemma_pow_adds(10, e, token_decimals as nat);
        lemma_small_mod(amount * scale(token_decimals), modulus());
        assert((amount * a) * b == amount * (a * b)) by (nonlinear_arith);
    }
}

/// The proof of a payment is to be made.
#[derive(Debug, Clone, Copy, PartialEq, Eq)]
pub struct TransactionProofInput {
    pub reservation_id: U256,
}

/// The proof of a run of blocks is to be made.
#[derive(Debug, Clone, PartialEq, Eq)]
pub struct BlockProofInput {
    pub safe_chainwork: U256,
    pub safe_block_height: u64,
    pub blocks: Vec<Block>,
    pub retarget_block: Block,
    pub retarget_block_height: u64,
}

/// A proof that is to be made.
#[derive(Debug, Clone, PartialEq, Eq)]
pub enum ProofGenerationInput {
    Transaction(TransactionProofInput),
    Block(BlockProofInput),
}

impl ProofGenerationInput {
    /// The proof of the payment for the reservation with `reservation_id` is to be made.
    pub fn new(reservation_id: U256) -> (input: Self)
        ensures
            input == ProofGenerationInput::Transaction(TransactionProofInput { reservation_id }),
    {
        ProofGenerationInput::Transaction(TransactionProofInput { reservation_id })
    }
}

/// What is owed to the owner of one vault.
#[derive(Debug, Clone, Copy, PartialEq, Eq)]
pub struct LiquidityReservation {
    pub expected_sats: u64,
    pub script_pub_key: [u8; 22],
}

/// What is owed to the owners of the vaults, vault by vault, as far as both lists go.
pub open spec fn liquidity(vaults: Seq<DepositVault>, sats: Seq<u64>) -> Seq<LiquidityReservation> {
    Seq::new(
        if vaults.len() <= sats.len() {
            vaults.len()
        } else {
            sats.len()
        },
        |i: int|
            LiquidityReservation {
                expected_sats: sats[i],
                script_pub_key: vaults[i].btc_payout_locking_script,
            },
    )
}

/// Pairs the vaults with what is owed to their owners.
fn pair_liquidity(vaults: &[DepositVault], sats: &[u64]) -> (paired: Vec<LiquidityReservation>)
    ensures
        paired@ == liquidity(vaults@, sats@),
{
    let mut paired: Vec<LiquidityReservation> = Vec::new();
    let mut i: usize = 0;
    while i < vaults.len() && i < sats.len()
        invariant
            i <= vaults@.len(),
            i <= sats@.len(),
            paired@ == liquidity(vaults@, sats@).take(i as int),
        decreases vaults@.len() - i,
    {
        paired.push(
            LiquidityReservation {
                expected_sats: sats[i],
                script_pub_key: vaults[i].btc_payout_locking_script,
            },
        );
        i = i + 1;
        assert(liquidity(vaults@, sats@).take(i as int) =~= liquidity(vaults@, sats@).take(
            i - 1,
        ).push(liquidity(vaults@, sats@)[i - 1]));
    }
    assert(liquidity(vaults@, sats@).take(i as int) =~= liquidity(vaults@, sats@));
    paired
}

/// What the proof of a payment is made from.
pub struct TransactionProofArguments<'a> {
    pub order_nonce: [u8; 32],
    pub liquidity_reservations: Vec<LiquidityReservation>,
    /// Which of the blocks holds the payment.
    pub proposed_block_index: u64,
    /// The id of the paying transaction, in the order that ids are shown in.
    pub proposed_txid: [u8; 32],
    /// The blocks and the work in the chain below them.
    pub btc_final: &'a BitcoinReservationFinal,
}

/// Why the proof for the reservation with `id` cannot be made, if it cannot.
pub open spec fn generation_error(
    reservations: Map<U256, ReservationMetadata>,
    id: U256,
) -> Option<ErrorView> {
    if !reservations.dom().contains(id) {
        Some(ErrorView::Store(colon_joined("Reservation not found"@, decimal(id@))))
    } else if reservations[id].btc_final is None {
        Some(ErrorView::ProofGeneration("BTC final data not found"@))
    } else if reservations[id].btc is None {
        Some(ErrorView::ProofGeneration("BTC initial data not found"@))
    } else {
        None
    }
}

/// Whether a payment that is confirmed is not below the safe block.
pub open spec fn above_safe_block(metadata: ReservationMetadata) -> bool {
    match (metadata.btc, metadata.btc_final) {
        (Some(btc), Some(btc_final)) => btc_final.safe_block_height <= btc.proposed_block_height,
        _ => true,
    }
}

/// Whether the proof of the payment for a reservation is made from `arguments`.
pub open spec fn is_proof_input(
    metadata: ReservationMetadata,
    arguments: TransactionProofArguments,
) -> bool {
    &&& arguments.order_nonce == metadata.reservation.nonce
    &&& arguments.liquidity_reservations@ == liquidity(
        metadata.reserved_vaults@,
        metadata.reservation.expected_sats_output@,
    )
    &&& arguments.proposed_block_index == metadata.btc->0.proposed_block_height
        - metadata.btc_final->0.safe_block_height
    &&& arguments.proposed_txid@ == metadata.btc->0.txid@.reverse()
    &&& *arguments.btc_final == metadata.btc_final->0
}

/// Puts together what the proof for the reservation with `reservation_id` is made from.
pub fn prepare_transaction_proof<'a>(
    reservation_id: U256,
    store: &'a ActiveReservations,
) -> (r: Result<TransactionProofArguments<'a>, HypernodeError>)
    requires
        store.wf(),
        store@.dom().contains(reservation_id) ==> above_safe_block(store@[reservation_id]),
    ensures
        match r {
            Ok(arguments) => generation_error(store@, reservation_id) is None && is_proof_input(
                store@[reservation_id],
                arguments,
            ),
            Err(e) => generation_error(store@, reservation_id) == Some(e@),
        },
{
    let metadata = match store.get(reservation_id) {
        Some(metadata) => metadata,
        None => return Err(
            HypernodeError::Store(
                join_with_colon("Reservation not found", reservation_id.to_decimal().as_str()),
            ),
        ),
    };
    let liquidity_reservations = pair_liquidity(
        metadata.reserved_vaults.as_slice(),
        metadata.reservation.expected_sats_output.as_slice(),
    );
    let btc_final = match &metadata.btc_final {
        Some(btc_final) => btc_final,
        None => return Err(
            HypernodeError::ProofGeneration("BTC final data not found".to_owned()),
        ),
    };
    let btc = match &metadata.btc {
        Some(btc) => btc,
        None => return Err(
            HypernodeError::ProofGeneration("BTC initial data not found".to_owned()),
        ),
    };
    Ok(
        TransactionProofArguments {
            order_nonce: metadata.reservation.nonce,
            liquidity_reservations,
            proposed_block_index: btc.proposed_block_height - btc_final.safe_block_height,
            proposed_txid: to_little_endian(&btc.txid),
            btc_final,
        },
    )
}

/// The public inputs that decoding their text gave, or the error that it ended in.
pub fn read_public_inputs(decoded: Result<Vec<u8>, String>) -> (r: Result<Vec<u8>, HypernodeError>)
    ensures
        match decoded {
            Ok(data) => r == Ok::<Vec<u8>, HypernodeError>(data),
            Err(text) => r matches Err(e) && e@ == ErrorView::ProofGeneration(
                colon_joined("Failed to decode public inputs"@, text@),
            ),
        },
{
    match decoded {
        Ok(data) => Ok(data),
        Err(text) => Err(
            HypernodeError::ProofGeneration(
                join_with_colon("Failed to decode public inputs", text.as_str()),
            ),
        ),
    }
}

/// The public inputs in the text that a prover shows them as: hexadecimal digits, after any number
/// of marks `0x`.
pub open spec fn public_inputs_of(text: Seq<char>) -> Result<Seq<u8>, ErrorView> {
    let digits = without_hex_marks(text);
    if is_hex(digits) {
        Ok(hex_value(digits))
    } else {
        Err(
            ErrorView::ProofGeneration(
                colon_joined("Failed to decode public inputs"@, hex_error_text(digits)),
            ),
        )
    }
}

/// Decodes the public inputs that a prover shows as `public_values_string`.
pub fn decode_public_inputs(public_values_string: &str) -> (r: Result<Vec<u8>, HypernodeError>)
    ensures
        outcome(r) == public_inputs_of(public_values_string@),
{
    read_public_inputs(hex_decode(trim_hex_marks(public_values_string)))
}

/// Keeps the proof that was made of the payment for a reservation, and has it submitted. If the
/// public inputs cannot be decoded, nothing is kept.
pub fn finish_transaction_proof(
    item: TransactionProofInput,
    solidity_proof_bytes: Vec<u8>,
    public_values_string: &str,
    store: &mut ActiveReservations,
) -> (r: Result<ProofBroadcastInput, HypernodeError>)
    requires
        old(store).wf(),
        old(store)@.dom().contains(item.reservation_id),
    ensures
        final(store).wf(),
        final(store).contract_hashes() == old(store).contract_hashes(),
        match r {
            Ok(input) => {
                &&& input == ProofBroadcastInput::Transaction(
                    TransactionBroadcastInput { reservation_id: item.reservation_id },
                )
                &&& exists|public_inputs: Vec<u8>|
                    {
                        &&& public_inputs_of(public_values_string@) == Ok::<Seq<u8>, ErrorView>(
                            public_inputs@,
                        )
                        &&& final(store)@ == old(store)@.insert(
                            item.reservation_id,
                            #[trigger] old(store)@[item.reservation_id].with_proof(
                                solidity_proof_bytes,
                                public_inputs,
                            ),
                        )
                    }
            },
            Err(e) => {
                &&& public_inputs_of(public_values_string@) == Err::<Seq<u8>, ErrorView>(e@)
                &&& final(store)@ == old(store)@
            },
        },
{
    match decode_public_inputs(public_values_string) {
        Ok(public_inputs) => {
            store.update_proof_data(item.reservation_id, solidity_proof_bytes, public_inputs);
            Ok(ProofBroadcastInput::new(item.reservation_id))
        },
        Err(e) => Err(e),
    }
}

/// Has the proof that was made of a run of blocks submitted.
pub fn finish_block_proof(
    input: BlockProofInput,
    solidity_proof_bytes: Vec<u8>,
    public_values_string: &str,
) -> (r: Result<ProofBroadcastInput, HypernodeError>)
    ensures
        match r {
            Ok(ProofBroadcastInput::Block(broadcast)) => {
                &&& broadcast.safe_chainwork == input.safe_chainwork
                &&& broadcast.safe_block_height == input.safe_block_height
                &&& broadcast.blocks == input.blocks
                &&& broadcast.retarget_block == input.retarget_block
                &&& broadcast.retarget_block_height == input.retarget_block_height
                &&& broadcast.solidity_proof == solidity_proof_bytes
                &&& public_inputs_of(public_values_string@) == Ok::<Seq<u8>, ErrorView>(
                    broadcast.public_inputs@,
                )
            },
            Ok(ProofBroadcastInput::Transaction(_)) => false,
            Err(e) => public_inputs_of(public_values_string@) == Err::<Seq<u8>, ErrorView>(e@),
        },
{
    match decode_public_inputs(public_values_string) {
        Ok(public_inputs) => Ok(
            ProofBroadcastInput::Block(
                BlockBroadcastInput {
                    safe_chainwork: input.safe_chainwork,
                    safe_block_height: input.safe_block_height,
                    blocks: input.blocks,
                    retarget_block: input.retarget_block,
                    retarget_block_height: input.retarget_block_height,
                    solidity_proof: solidity_proof_bytes,
                    public_inputs,
                },
            ),
        ),
        Err(e) => Err(e),
    }
}

/// Once a payment is confirmed as planned its proof can be made, and once its proof is kept it can
/// be submitted: neither is refused, and the paying block is among the blocks.
pub proof fn law_confirmed_can_be_proven(
    reservations: Map<U256, ReservationMetadata>,
    id: U256,
    heights: Set<u64>,
    plan: ConfirmationPlan,
    block_hash: [u8; 32],
    safe_chainwork: [u8; 32],
    blocks: Vec<Block>,
    retarget_block: Block,
    solidity_proof: Vec<u8>,
    public_inputs: Vec<u8>,
)
    requires
        reservations.dom().contains(id),
        reservations[id].pending(),
        is_plan(heights, reservations[id].btc->0.proposed_block_height, plan),
        blocks@.len() == plan.confirmation_height - plan.safe_height + 1,
    ensures
        ({
            let confirmed = reservations.insert(
                id,
                reservations[id].with_final(
                    confirmation_of(plan, block_hash, safe_chainwork, blocks, retarget_block),
                ),
            );
            let proven = confirmed.insert(
                id,
                confirmed[id].with_proof(solidity_proof, public_inputs),
            );
            &&& generation_error(confirmed, id) is None
            &&& above_safe_block(confirmed[id])
            &&& broadcast_error(proven, id) is None
            &&& paying_block_kept(proven[id])
        }),
{
    law_confirmed(
        reservations[id],
        heights,
        plan,
        block_hash,
        safe_chainwork,
        blocks,
        retarget_block,
    );
}

/// A proof is made from the order's nonce, from what is owed vault by vault, from the id of the
/// paying transaction with its bytes turned around, and from what was kept of the confirmation; the
/// block that holds the payment is found by counting up from the safe one.
pub proof fn law_proof_input(metadata: ReservationMetadata, arguments: TransactionProofArguments)
    requires
        metadata.btc is Some,
        metadata.btc_final is Some,
        is_proof_input(metadata, arguments),
    ensures
        ({
            let vaults = metadata.reserved_vaults@;
            let sats = metadata.reservation.expected_sats_output@;
            let owed = arguments.liquidity_reservations@;
            &&& metadata.reservation.nonce == arguments.order_nonce
            &&& owed.len() <= vaults.len() && owed.len() <= sats.len()
            &&& owed.len() == vaults.len() || owed.len() == sats.len()
            &&& forall|i: int|
                0 <= i < owed.len() ==> (#[trigger] owed[i]).expected_sats == sats[i]
                    && owed[i].script_pub_key == vaults[i].btc_payout_locking_script
            &&& metadata.btc_final->0.safe_block_height + arguments.proposed_block_index
                == metadata.btc->0.proposed_block_height
            &&& forall|i: int|
                0 <= i < 32 ==> #[trigger] arguments.proposed_txid@[i] == metadata.btc->0.txid@[31
                    - i]
            &&& metadata.btc_final->0 == *arguments.btc_final
        }),
{
    assert forall|i: int| 0 <= i < 32 implies #[trigger] arguments.proposed_txid@[i]
        == metadata.btc->0.txid@[31 - i] by {
        assert(metadata.btc->0.txid@.reverse()[i] == metadata.btc->0.txid@[31 - i]);
    }
}

/// A proof is made exactly when the reservation is watched and its payment and what was kept of the
/// confirmation are there.
pub proof fn law_generation_error(reservations: Map<U256, ReservationMetadata>, id: U256)
    ensures
        match generation_error(reservations, id) {
            None => {
                &&& reservations.dom().contains(id)
                &&& reservations[id].btc is Some
                &&& reservations[id].btc_final is Some
            },
            Some(error) => {
                ||| !reservations.dom().contains(id) && error is Store
                ||| {
                    &&& reservations.dom().contains(id)
                    &&& error is ProofGeneration
                    &&& reservations[id].btc is None || reservations[id].btc_final is None
                }
            },
        },
{
}

/// Public inputs that a prover shows as hexadecimal digits, with the mark or without, are read as
/// they are; so is a text with more marks like the one with fewer.
pub proof fn law_public_inputs(data: Seq<u8>, text: Seq<char>)
    ensures
        public_inputs_of(hex_text(data)) == Ok::<Seq<u8>, ErrorView>(data),
        public_inputs_of(seq!['0', 'x'] + hex_text(data)) == Ok::<Seq<u8>, ErrorView>(data),
        public_inputs_of(seq!['0', 'x'] + text) == public_inputs_of(text),
        public_inputs_of(text) is Ok <==> is_hex(without_hex_marks(text)),
        public_inputs_of(text) matches Ok(inputs) ==> inputs == hex_value(without_hex_marks(text)),
        public_inputs_of(text) matches Err(error) ==> error is ProofGeneration,
{
    law_marked_hex(data);
    law_hex_round_trip(data);
    law_hex_marks(text);
}

} // verus!
