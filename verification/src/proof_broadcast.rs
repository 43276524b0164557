//! What is submitted to the exchange contract once a proof was made.

use vstd::prelude::*;

use crate::block::Block;
use crate::btc_indexer::{confirmation_of, is_plan, law_confirmed, law_plan, ConfirmationPlan};
use crate::bytes::{hash_bytes, to_little_endian};
use crate::error::{ErrorView, HypernodeError};
use crate::store::{ActiveReservations, ReservationMetadata};
use crate::text::{colon_joined, decimal, join_with_colon};
use crate::u256::U256;

verus! {

/// The proof of a payment is to be submitted.
#[derive(Debug, Clone, Copy, PartialEq, Eq)]
pub struct TransactionBroadcastInput {
    pub reservation_id: U256,
}

/// The proof of a run of blocks is to be submitted.
#[derive(Debug, Clone, PartialEq, Eq)]
pub struct BlockBroadcastInput {
    pub safe_chainwork: U256,
    pub safe_block_height: u64,
    pub blocks: Vec<Block>,
    pub retarget_block: Block,
    pub retarget_block_height: u64,
    pub solidity_proof: Vec<u8>,
    pub public_inputs: Vec<u8>,
}

/// A proof that is to be submitted.
#[derive(Debug, Clone, PartialEq, Eq)]
pub enum ProofBroadcastInput {
    Transaction(TransactionBroadcastInput),
    Block(BlockBroadcastInput),
}

impl ProofBroadcastInput {
    /// The proof of the payment for the reservation with `reservation_id` is to be submitted.
    pub fn new(reservation_id: U256) -> (input: Self)
        ensures
            input == ProofBroadcastInput::Transaction(TransactionBroadcastInput { reservation_id }),
    {
        ProofBroadcastInput::Transaction(TransactionBroadcastInput { reservation_id })
    }
}

/// The arguments of the contract's `submitSwapProof`.
#[derive(Debug, Clone, PartialEq, Eq)]
pub struct SwapProofArguments {
    pub reservation_id: U256,
    pub bitcoin_tx_id: [u8; 32],
    pub merkle_root: [u8; 32],
    pub safe_block_height: u32,
    pub proposed_block_height: u64,
    pub confirmation_block_height: u64,
    pub block_hashes: Vec<[u8; 32]>,
    pub block_chainworks: Vec<U256>,
    pub solidity_proof: Vec<u8>,
}

/// Why the proof for the reservation with `id` cannot be submitted, if it cannot.
pub open spec fn broadcast_error(
    reservations: Map<U256, ReservationMetadata>,
    id: U256,
) -> Option<ErrorView> {
    if !reservations.dom().contains(id) {
        Some(ErrorView::Store(colon_joined("Reservation not found"@, decimal(id@))))
    } else if reservations[id].proof is None {
        Some(
            ErrorView::ProofBroadcast(
                colon_joined("Proof not found for reservation"@, decimal(id@)),
            ),
        )
    } else if reservations[id].btc is None {
        Some(
            ErrorView::ProofBroadcast(
                colon_joined("BTC initial not found for reservation"@, decimal(id@)),
            ),
        )
    } else if reservations[id].btc_final is None {
        Some(
            ErrorView::ProofBroadcast(
                colon_joined("BTC final not found for reservation"@, decimal(id@)),
            ),
        )
    } else {
        None
    }
}

/// Whether the paying block of a confirmed payment is among the blocks that the proof is made from.
pub open spec fn paying_block_kept(metadata: ReservationMetadata) -> bool {
    match (metadata.btc, metadata.btc_final) {
        (Some(btc), Some(btc_final)) => 0 <= btc.proposed_block_height
            - btc_final.safe_block_height < btc_final.blocks@.len(),
        _ => true,
    }
}

/// Whether the paying block of a confirmed payment is among the blocks that the proof is made from.
pub fn has_paying_block(metadata: &ReservationMetadata) -> (r: bool)
    ensures
        r == paying_block_kept(*metadata),
{
    match (&metadata.btc, &metadata.btc_final) {
        (Some(btc), Some(btc_final)) => btc.proposed_block_height >= btc_final.safe_block_height
            && btc.proposed_block_height - btc_final.safe_block_height
            < btc_final.blocks.len() as u64,
        _ => true,
    }
}

/// The hashes of the blocks, in the order that hashes are shown in.
pub open spec fn shown_hashes(blocks: Seq<Block>) -> Seq<Seq<u8>> {
    blocks.map_values(|block: Block| block.block_hash@.reverse())
}

/// The hashes of the blocks, in the order that hashes are shown in.
fn show_hashes(blocks: &[Block]) -> (hashes: Vec<[u8; 32]>)
    ensures
        hash_bytes(hashes@) == shown_hashes(blocks@),
{
    let mut hashes: Vec<[u8; 32]> = Vec::new();
    let mut i: usize = 0;
    while i < blocks.len()
        invariant
            i <= blocks@.len(),
            hashes@.len() == i,
            forall|j: int|
                0 <= j < i ==> (#[trigger] hashes@[j])@ == blocks@[j].block_hash@.reverse(),
        decreases blocks@.len() - i,
    {
        hashes.push(to_little_endian(&blocks[i].block_hash));
        i = i + 1;
    }
    assert(hash_bytes(hashes@) =~= shown_hashes(blocks@));
    hashes
}

/// Whether `arguments` submit the proof of the payment for a reservation.
pub open spec fn is_submission(
    id: U256,
    metadata: ReservationMetadata,
    chainworks: Seq<U256>,
    arguments: SwapProofArguments,
) -> bool {
    let btc = metadata.btc->0;
    let btc_final = metadata.btc_final->0;
    let paying = btc_final.blocks@[btc.proposed_block_height - btc_final.safe_block_height];
    &&& arguments.reservation_id == id
    &&& arguments.bitcoin_tx_id@ == btc.txid@.reverse()
    &&& arguments.merkle_root@ == paying.merkle_root@.reverse()
    &&& arguments.safe_block_height == btc_final.safe_block_height % 0x1_0000_0000
    &&& arguments.proposed_block_height == btc.proposed_block_height
    &&& arguments.confirmation_block_height == btc_final.confirmation_height
    &&& hash_bytes(arguments.block_hashes@) == shown_hashes(btc_final.blocks@)
    &&& arguments.block_chainworks@ == chainworks
    &&& arguments.solidity_proof@ == metadata.proof->0@
}

/// The lowest 32 bits of a height.
fn low_32(height: u64) -> (r: u32)
    ensures
        r == height % 0x1_0000_0000,
{
    (height % 0x1_0000_0000) as u32
}

/// A copy of `data`.
fn copy_bytes(data: &[u8]) -> (copy: Vec<u8>)
    ensures
        copy@ == data@,
{
    let mut copy: Vec<u8> = Vec::new();
    let mut i: usize = 0;
    while i < data.len()
        invariant
            i <= data@.len(),
            copy@ == data@.take(i as int),
        decreases data@.len() - i,
    {
        copy.push(data[i]);
        i = i + 1;
        assert(data@.take(i as int) =~= data@.take(i - 1).push(data@[i - 1]));
    }
    assert(data@.take(i as int) =~= data@);
    copy
}

/// Puts together what is submitted for the reservation with `reservation_id`.
///
/// `chainworks` is the work in the chain up to each of the blocks of the proof.
pub fn build_submission(
    reservation_id: U256,
    chainworks: Vec<U256>,
    store: &ActiveReservations,
) -> (r: Result<SwapProofArguments, HypernodeError>)
    requires
        store.wf(),
        broadcast_error(store@, reservation_id) is None ==> paying_block_kept(
            store@[reservation_id],
        ),
    ensures
        match r {
            Ok(arguments) => {
                &&& broadcast_error(store@, reservation_id) is None
                &&& is_submission(
                    reservation_id,
                    store@[reservation_id],
                    chainworks@,
                    arguments,
                )
                &&& store@[reservation_id].btc matches Some(btc)
                &&& store@[reservation_id].btc_final matches Some(btc_final)
                &&& btc.proposed_block_height == arguments.proposed_block_height
                &&& btc_final.confirmation_height == arguments.confirmation_block_height
                &&& arguments.block_hashes@.len() == btc_final.blocks@.len()
                &&& forall|i: int|
                    0 <= i < 32 ==> #[trigger] arguments.bitcoin_tx_id@[i] == btc.txid@[31 - i]
            },
            Err(e) => broadcast_error(store@, reservation_id) == Some(e@),
        },
{
    let shown_id = reservation_id.to_decimal();
    let metadata = match store.get(reservation_id) {
        Some(metadata) => metadata,
        None => return Err(
            HypernodeError::Store(join_with_colon("Reservation not found", shown_id.as_str())),
        ),
    };
    let kept = &metadata.proof;
    let solidity_proof = match kept {
        Some(solidity_proof) => solidity_proof,
        None => return Err(
            HypernodeError::ProofBroadcast(
                join_with_colon("Proof not found for reservation", shown_id.as_str()),
            ),
        ),
    };
    let btc = match &metadata.btc {
        Some(btc) => btc,
        None => return Err(
            HypernodeError::ProofBroadcast(
                join_with_colon("BTC initial not found for reservation", shown_id.as_str()),
            ),
        ),
    };
    let btc_final = match &metadata.btc_final {
        Some(btc_final) => btc_final,
        None => return Err(
            HypernodeError::ProofBroadcast(
                join_with_colon("BTC final not found for reservation", shown_id.as_str()),
            ),
        ),
    };
    assert(btc_final.blocks@.len() == btc_final.blocks.len());
    let index: usize = (btc.proposed_block_height - btc_final.safe_block_height) as usize;
    let r: Result<SwapProofArguments, HypernodeError> = Ok(
        SwapProofArguments {
            reservation_id,
            bitcoin_tx_id: to_little_endian(&btc.txid),
            merkle_root: to_little_endian(&btc_final.blocks[index].merkle_root),
            safe_block_height: low_32(btc_final.safe_block_height),
            proposed_block_height: btc.proposed_block_height,
            confirmation_block_height: btc_final.confirmation_height,
            block_hashes: show_hashes(btc_final.blocks.as_slice()),
            block_chainworks: chainworks,
            solidity_proof: copy_bytes(solidity_proof.as_slice()),
        },
    );
    proof {
        law_submission(reservation_id, *metadata, chainworks@, r->Ok_0);
    }
    r
}

/// A proof is submitted with the payment that was seen and with what was kept of its confirmation:
/// the heights as they are, the blocks one by one, and every hash with its bytes turned around.
pub proof fn law_submission(
    id: U256,
    metadata: ReservationMetadata,
    chainworks: Seq<U256>,
    arguments: SwapProofArguments,
)
    requires
        metadata.btc is Some,
        metadata.btc_final is Some,
        metadata.proof is Some,
        paying_block_kept(metadata),
        is_submission(id, metadata, chainworks, arguments),
    ensures
        ({
            let btc = metadata.btc->0;
            let btc_final = metadata.btc_final->0;
            let blocks = btc_final.blocks@;
            &&& id == arguments.reservation_id
            &&& btc.proposed_block_height == arguments.proposed_block_height
            &&& btc_final.confirmation_height == arguments.confirmation_block_height
            &&& btc_final.safe_block_height <= u32::MAX ==> arguments.safe_block_height
                == btc_final.safe_block_height
            &&& forall|i: int|
                0 <= i < 32 ==> #[trigger] arguments.bitcoin_tx_id@[i] == btc.txid@[31 - i]
            &&& exists|k: int|
                {
                    &&& 0 <= k < blocks.len()
                    &&& btc_final.safe_block_height + k == btc.proposed_block_height
                    &&& forall|i: int|
                        0 <= i < 32 ==> #[trigger] arguments.merkle_root@[i] == (
                        #[trigger] blocks[k]).merkle_root@[31 - i]
                }
            &&& arguments.block_hashes@.len() == blocks.len()
            &&& forall|k: int, i: int|
                0 <= k < blocks.len() && 0 <= i < 32 ==> #[trigger] arguments.block_hashes@[k]@[i]
                    == blocks[k].block_hash@[31 - i]
            &&& chainworks == arguments.block_chainworks@
            &&& metadata.proof->0@ == arguments.solidity_proof@
        }),
{
    let btc = metadata.btc->0;
    let btc_final = metadata.btc_final->0;
    let blocks = btc_final.blocks@;
    let k = btc.proposed_block_height - btc_final.safe_block_height;
    assert(0 <= k < blocks.len());
    assert forall|i: int| 0 <= i < 32 implies #[trigger] arguments.merkle_root@[i]
        == blocks[k].merkle_root@[31 - i] by {
        assert(blocks[k].merkle_root@.reverse()[i] == blocks[k].merkle_root@[31 - i]);
    }
    assert forall|i: int| 0 <= i < 32 implies #[trigger] arguments.bitcoin_tx_id@[i]
        == btc.txid@[31 - i] by {
        assert(btc.txid@.reverse()[i] == btc.txid@[31 - i]);
    }
    assert(hash_bytes(arguments.block_hashes@).len() == arguments.block_hashes@.len());
    assert(shown_hashes(blocks).len() == blocks.len());
    assert forall|b: int, i: int|
        0 <= b < blocks.len() && 0 <= i < 32 implies #[trigger] arguments.block_hashes@[b]@[i]
        == blocks[b].block_hash@[31 - i] by {
        assert(hash_bytes(arguments.block_hashes@)[b] == arguments.block_hashes@[b]@);
        assert(shown_hashes(blocks)[b] == blocks[b].block_hash@.reverse());
    }
}

/// A payment that was confirmed as planned, with all the blocks from the safe one to the confirming
/// one, is submitted with the heights of the plan: the last of the submitted blocks is the one at
/// the confirming height, and the paying block lies among them, before the last.
pub proof fn law_planned_submission(
    id: U256,
    metadata: ReservationMetadata,
    heights: Set<u64>,
    plan: ConfirmationPlan,
    block_hash: [u8; 32],
    safe_chainwork: [u8; 32],
    blocks: Vec<Block>,
    retarget_block: Block,
    proof_bytes: Vec<u8>,
    public_inputs: Vec<u8>,
    chainworks: Seq<U256>,
    arguments: SwapProofArguments,
)
    requires
        metadata.pending(),
        is_plan(heights, metadata.btc->0.proposed_block_height, plan),
        blocks@.len() == plan.confirmation_height - plan.safe_height + 1,
        is_submission(
            id,
            metadata.with_final(
                confirmation_of(plan, block_hash, safe_chainwork, blocks, retarget_block),
            ).with_proof(proof_bytes, public_inputs),
            chainworks,
            arguments,
        ),
    ensures
        arguments.confirmation_block_height == plan.confirmation_height,
        arguments.confirmation_block_height - plan.safe_height + 1 == arguments.block_hashes@.len(),
        arguments.proposed_block_height == metadata.btc->0.proposed_block_height,
        plan.safe_height < arguments.proposed_block_height < arguments.confirmation_block_height,
        plan.safe_height <= u32::MAX ==> arguments.safe_block_height == plan.safe_height,
        forall|height: u64, i: int|
            #![trigger arguments.block_hashes@[height - plan.safe_height]@[i]]
            plan.safe_height <= height <= arguments.confirmation_block_height && 0 <= i < 32
                ==> arguments.block_hashes@[height - plan.safe_height]@[i] == blocks@[height
                - plan.safe_height].block_hash@[31 - i],
        forall|i: int|
            0 <= i < 32 ==> #[trigger] arguments.merkle_root@[i]
                == blocks@[arguments.proposed_block_height - plan.safe_height].merkle_root@[31 - i],
        forall|i: int|
            0 <= i < 32 ==> #[trigger] arguments.bitcoin_tx_id@[i] == metadata.btc->0.txid@[31 - i],
        arguments.solidity_proof@ == proof_bytes@,
        chainworks == arguments.block_chainworks@,
        id == arguments.reservation_id,
{
    let proposed = metadata.btc->0.proposed_block_height;
    let confirmed = metadata.with_final(
        confirmation_of(plan, block_hash, safe_chainwork, blocks, retarget_block),
    );
    let proven = confirmed.with_proof(proof_bytes, public_inputs);
    law_confirmed(metadata, heights, plan, block_hash, safe_chainwork, blocks, retarget_block);
    law_plan(heights, proposed, plan, plan);
    law_submission(id, proven, chainworks, arguments);
}

/// A proof is submitted exactly when the reservation is watched and its proof, its payment and what
/// was kept of the confirmation are there; otherwise the first of these that is missing is named.
pub proof fn law_broadcast_error(reservations: Map<U256, ReservationMetadata>, id: U256)
    ensures
        match broadcast_error(reservations, id) {
            None => {
                &&& reservations.dom().contains(id)
                &&& reservations[id].proof is Some
                &&& reservations[id].btc is Some
                &&& reservations[id].btc_final is Some
            },
            Some(error) => {
                ||| !reservations.dom().contains(id) && error is Store
                ||| {
                    &&& reservations.dom().contains(id)
                    &&& error is ProofBroadcast
                    &&& reservations[id].proof is None || reservations[id].btc is None
                        || reservations[id].btc_final is None
                }
            },
        },
{
}

/// The paying block is kept exactly when counting the kept blocks up from the safe one comes to it.
pub proof fn law_paying_block(metadata: ReservationMetadata)
    requires
        metadata.btc is Some,
        metadata.btc_final is Some,
    ensures
        paying_block_kept(metadata) <==> exists|k: int|
            {
                &&& 0 <= k < metadata.btc_final->0.blocks@.len()
                &&& #[trigger] (metadata.btc_final->0.safe_block_height + k)
                    == metadata.btc->0.proposed_block_height
            },
{
    let k = metadata.btc->0.proposed_block_height - metadata.btc_final->0.safe_block_height;
    assert(metadata.btc_final->0.safe_block_height + k == metadata.btc->0.proposed_block_height);
}

} // verus!
