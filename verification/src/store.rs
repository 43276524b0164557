//! The reservations that the node watches, and the Bitcoin blocks that the contract knows.

use std::collections::HashMap;

use vstd::prelude::*;
use vstd::std_specs::iter::IteratorSpec;

use crate::block::Block;
use crate::constants::RESERVATION_DURATION_HOURS;
use crate::u256::U256;

verus! {

/// A reservation as the exchange contract holds it.
#[derive(Debug, Clone, PartialEq, Eq)]
pub struct SwapReservation {
    /// The nonce that a payment inscribes.
    pub nonce: [u8; 32],
    /// The second after which the reservation is expired.
    pub unlock_timestamp: u64,
    /// The second after which the liquidity of a proven swap can be released.
    pub liquidity_unlocked_timestamp: u64,
    /// The vaults that the liquidity comes from.
    pub vault_indexes: Vec<U256>,
    /// How many satoshis are owed to the owner of each vault.
    pub expected_sats_output: Vec<u64>,
}

/// A vault of the exchange contract, as far as the node reads it: the script that its owner is
/// paid to.
#[derive(Debug, Clone, Copy, PartialEq, Eq)]
pub struct DepositVault {
    pub btc_payout_locking_script: [u8; 22],
}

/// A payment that was seen: the block and the transaction that made it and, once it is confirmed,
/// what is known of the confirmation.
#[derive(Debug, Clone, Copy, PartialEq, Eq)]
pub struct BitcoinReservationInProgress {
    pub proposed_block_height: u64,
    pub proposed_block_hash: [u8; 32],
    pub txid: [u8; 32],
    /// The height of the block that confirms the payment.
    pub confirmation_height: Option<u64>,
    /// The hash of the block that was analyzed when the confirmation was noticed. Its height can
    /// be another than `confirmation_height`.
    pub confirmation_block_hash: Option<[u8; 32]>,
}

impl BitcoinReservationInProgress {
    /// A payment that was seen and is not confirmed yet.
    pub open spec fn seen(height: u64, block_hash: [u8; 32], txid: [u8; 32]) -> Self {
        BitcoinReservationInProgress {
            proposed_block_height: height,
            proposed_block_hash: block_hash,
            txid,
            confirmation_height: None,
            confirmation_block_hash: None,
        }
    }

    /// A payment that was seen and is not confirmed yet.
    pub fn new(
        proposed_block_height: u64,
        proposed_block_hash: [u8; 32],
        txid: [u8; 32],
    ) -> (payment: Self)
        ensures
            payment == Self::seen(proposed_block_height, proposed_block_hash, txid),
    {
        BitcoinReservationInProgress {
            proposed_block_height,
            proposed_block_hash,
            txid,
            confirmation_height: None,
            confirmation_block_hash: None,
        }
    }
}

/// What a proof of a confirmed payment is made from.
#[derive(Debug, Clone, PartialEq, Eq)]
pub struct BitcoinReservationFinal {
    /// The height of the block that confirms the payment.
    pub confirmation_height: u64,
    /// The hash of the block that was analyzed when the confirmation was noticed. Its height can
    /// be another than `confirmation_height`.
    pub confirmation_block_hash: [u8; 32],
    /// The height of the block that the chain of blocks starts from.
    pub safe_block_height: u64,
    /// The work in the chain up to that block, highest byte first.
    pub safe_block_chainwork: [u8; 32],
    /// The blocks from the safe one to the confirming one.
    pub blocks: Vec<Block>,
    /// The first block of the difficulty period that the safe block is in.
    pub retarget_block: Block,
    pub retarget_block_height: u64,
}

/// A reservation with what the node knows of it so far.
#[derive(Debug, Clone, PartialEq, Eq)]
pub struct ReservationMetadata {
    pub reservation: SwapReservation,
    pub reserved_vaults: Vec<DepositVault>,
    /// The payment that was seen.
    pub btc: Option<BitcoinReservationInProgress>,
    /// What came with its confirmation.
    pub btc_final: Option<BitcoinReservationFinal>,
    /// The proof of the payment, as the contract takes it.
    pub proof: Option<Vec<u8>>,
    /// The public inputs of the proof.
    pub public_inputs: Option<Vec<u8>>,
}

impl ReservationMetadata {
    /// A reservation of which no payment was seen.
    pub fn new(reservation: SwapReservation, reserved_vaults: Vec<DepositVault>) -> (metadata: Self)
        ensures
            metadata.reservation == reservation,
            metadata.reserved_vaults == reserved_vaults,
            metadata.btc is None,
            metadata.btc_final is None,
            metadata.proof is None,
            metadata.public_inputs is None,
    {
        ReservationMetadata {
            reservation,
            reserved_vaults,
            btc: None,
            btc_final: None,
            proof: None,
            public_inputs: None,
        }
    }

    /// The second that the reservation was made in: it stays open for the duration of a
    /// reservation, until it expires.
    pub open spec fn reserved_at(self) -> u64 {
        if self.reservation.unlock_timestamp >= RESERVATION_DURATION_HOURS * 3600 {
            (self.reservation.unlock_timestamp - RESERVATION_DURATION_HOURS * 3600) as u64
        } else {
            0
        }
    }

    /// Whether the reservation expired before `timestamp`.
    pub open spec fn expired(self, timestamp: u64) -> bool {
        self.reservation.unlock_timestamp < timestamp
    }

    /// Whether a payment was seen that still waits for its confirmations.
    pub open spec fn pending(self) -> bool {
        self.btc is Some && self.btc_final is None
    }

    /// The same reservation with the payment `btc`.
    pub open spec fn with_btc(self, btc: BitcoinReservationInProgress) -> Self {
        ReservationMetadata { btc: Some(btc), ..self }
    }

    /// The same reservation, with its payment confirmed as `btc_final` says.
    pub open spec fn with_final(self, btc_final: BitcoinReservationFinal) -> Self {
        ReservationMetadata {
            btc: match self.btc {
                Some(btc) => Some(
                    BitcoinReservationInProgress {
                        confirmation_height: Some(btc_final.confirmation_height),
                        confirmation_block_hash: Some(btc_final.confirmation_block_hash),
                        ..btc
                    },
                ),
                None => None,
            },
            btc_final: Some(btc_final),
            ..self
        }
    }

    /// The same reservation with a proof.
    pub open spec fn with_proof(self, proof: Vec<u8>, public_inputs: Vec<u8>) -> Self {
        ReservationMetadata { proof: Some(proof), public_inputs: Some(public_inputs), ..self }
    }
}

/// Whether `id` is the id of one of the entries.
pub open spec fn has_id(entries: Seq<(U256, ReservationMetadata)>, id: U256) -> bool {
    exists|i: int| 0 <= i < entries.len() && (#[trigger] entries[i]).0 == id
}

/// Where the entry with `id` stands.
pub open spec fn position_of(entries: Seq<(U256, ReservationMetadata)>, id: U256) -> int {
    choose|i: int| 0 <= i < entries.len() && (#[trigger] entries[i]).0 == id
}

/// Whether no two entries have the same id.
pub open spec fn distinct_ids(entries: Seq<(U256, ReservationMetadata)>) -> bool {
    forall|i: int, j: int|
        0 <= i < j < entries.len() ==> (#[trigger] entries[i]).0 != (#[trigger] entries[j]).0
}

/// The entries by their ids.
pub open spec fn by_id(entries: Seq<(U256, ReservationMetadata)>) -> Map<
    U256,
    ReservationMetadata,
> {
    Map::new(|id: U256| has_id(entries, id), |id: U256| entries[position_of(entries, id)].1)
}

/// Whether one of the reservations was made at `time`.
pub open spec fn is_reservation_time(
    reservations: Map<U256, ReservationMetadata>,
    time: u64,
) -> bool {
    exists|id: U256| #[trigger]
        reservations.dom().contains(id) && reservations[id].reserved_at() == time
}

/// The reservations that did not expire before `timestamp`.
pub open spec fn unexpired(
    reservations: Map<U256, ReservationMetadata>,
    timestamp: u64,
) -> Map<U256, ReservationMetadata> {
    Map::new(
        |id: U256| reservations.dom().contains(id) && !reservations[id].expired(timestamp),
        |id: U256| reservations[id],
    )
}

/// An entry is found under its id.
proof fn lemma_by_id_at(entries: Seq<(U256, ReservationMetadata)>, i: int)
    requires
        distinct_ids(entries),
        0 <= i < entries.len(),
    ensures
        by_id(entries).dom().contains(entries[i].0),
        by_id(entries)[entries[i].0] == entries[i].1,
        position_of(entries, entries[i].0) == i,
{
    let id = entries[i].0;
    let p = position_of(entries, id);
    assert(0 <= p < entries.len() && entries[p].0 == id);
    if p < i {
        assert(entries[p].0 != entries[i].0);
    } else if i < p {
        assert(entries[i].0 != entries[p].0);
    }
}

/// Changing what is held under one id keeps the ids distinct and the rest as it was.
proof fn lemma_updated(
    before: Seq<(U256, ReservationMetadata)>,
    after: Seq<(U256, ReservationMetadata)>,
    i: int,
)
    requires
        distinct_ids(before),
        0 <= i < before.len(),
        after == before.update(i, after[i]),
        after[i].0 == before[i].0,
    ensures
        distinct_ids(after),
        by_id(after) == by_id(before).insert(before[i].0, after[i].1),
        by_id(before)[before[i].0] == before[i].1,
{
    assert forall|a: int, b: int| 0 <= a < b < after.len() implies (#[trigger] after[a]).0 != (
    #[trigger] after[b]).0 by {
        assert(before[a].0 != before[b].0);
    }
    assert forall|id: U256| has_id(after, id) <==> has_id(before, id) by {
        if has_id(before, id) {
            assert(after[position_of(before, id)].0 == id);
        }
        if has_id(after, id) {
            assert(before[position_of(after, id)].0 == id);
        }
    }
    lemma_by_id_at(before, i);
    assert forall|id: U256| has_id(before, id) implies by_id(after)[id] == by_id(before).insert(
        before[i].0,
        after[i].1,
    )[id] by {
        let p = position_of(before, id);
        assert(before[p].0 == id && after[p].0 == id);
        lemma_by_id_at(after, p);
        lemma_by_id_at(before, p);
    }
    assert(by_id(after) =~= by_id(before).insert(before[i].0, after[i].1));
}

/// The reservations that the node watches, by their ids, and the hashes of the Bitcoin blocks that
/// the contract knows, by their heights.
pub struct ActiveReservations {
    entries: Vec<(U256, ReservationMetadata)>,
    safe_contract_block_hashes: HashMap<u64, [u8; 32]>,
}

impl View for ActiveReservations {
    type V = Map<U256, ReservationMetadata>;

    closed spec fn view(&self) -> Map<U256, ReservationMetadata> {
        by_id(self.entries@)
    }
}

impl ActiveReservations {
    /// Whether every id is held once.
    pub closed spec fn wf(&self) -> bool {
        distinct_ids(self.entries@)
    }

    /// The hashes of the Bitcoin blocks that the contract knows, by their heights.
    pub closed spec fn contract_hashes(&self) -> Map<u64, [u8; 32]> {
        self.safe_contract_block_hashes@
    }

    /// A store without reservations and without blocks.
    pub fn new() -> (store: Self)
        ensures
            store.wf(),
            store@ == Map::<U256, ReservationMetadata>::empty(),
            store.contract_hashes() == Map::<u64, [u8; 32]>::empty(),
    {
        let store = ActiveReservations {
            entries: Vec::new(),
            safe_contract_block_hashes: HashMap::new(),
        };
        assert(store@ =~= Map::<U256, ReservationMetadata>::empty());
        store
    }

    /// Where the entry with `id` stands, if there is one.
    fn find(&self, id: U256) -> (r: Option<usize>)
        requires
            self.wf(),
        ensures
            match r {
                Some(i) => {
                    &&& i < self.entries@.len()
                    &&& self.entries@[i as int].0 == id
                    &&& self@.dom().contains(id)
                    &&& self@[id] == self.entries@[i as int].1
                },
                None => !self@.dom().contains(id),
            },
    {
        let mut i: usize = 0;
        while i < self.entries.len()
            invariant
                self.wf(),
                i <= self.entries@.len(),
                forall|j: int| 0 <= j < i ==> (#[trigger] self.entries@[j]).0 != id,
            decreases self.entries@.len() - i,
        {
            if self.entries[i].0 == id {
                proof {
                    lemma_by_id_at(self.entries@, i as int);
                }
                return Some(i);
            }
            i = i + 1;
        }
        None
    }

    /// The reservation with `id`, if it is watched.
    pub fn get(&self, id: U256) -> (r: Option<&ReservationMetadata>)
        requires
            self.wf(),
        ensures
            match r {
                Some(metadata) => self@.dom().contains(id) && *metadata == self@[id],
                None => !self@.dom().contains(id),
            },
    {
        match self.find(id) {
            Some(i) => Some(&self.entries[i].1),
            None => None,
        }
    }

    /// The ids of the reservations, each once.
    pub fn ids(&self) -> (ids: Vec<U256>)
        requires
            self.wf(),
        ensures
            ids@.no_duplicates(),
            forall|id: U256| ids@.contains(id) <==> self@.dom().contains(id),
    {
        let mut ids: Vec<U256> = Vec::new();
        let mut i: usize = 0;
        while i < self.entries.len()
            invariant
                i <= self.entries@.len(),
                ids@.len() == i,
                forall|j: int| 0 <= j < i ==> ids@[j] == (#[trigger] self.entries@[j]).0,
            decreases self.entries@.len() - i,
        {
            ids.push(self.entries[i].0);
            i = i + 1;
        }
        proof {
            assert forall|id: U256| ids@.contains(id) <==> self@.dom().contains(id) by {
                if ids@.contains(id) {
                    let j = choose|j: int| 0 <= j < ids@.len() && ids@[j] == id;
                    assert(self.entries@[j].0 == id);
                }
                if self@.dom().contains(id) {
                    let j = position_of(self.entries@, id);
                    assert(self.entries@[j].0 == id);
                    assert(ids@[j] == id);
                }
            }
            assert forall|a: int, b: int| 0 <= a < b < ids@.len() implies ids@[a] != ids@[b] by {
                assert(self.entries@[a].0 != self.entries@[b].0);
            }
        }
        ids
    }

    /// The times that the reservations were made at.
    pub fn reservation_times(&self) -> (times: Vec<u64>)
        requires
            self.wf(),
        ensures
            forall|time: u64| times@.contains(time) <==> is_reservation_time(self@, time),
    {
        let mut times: Vec<u64> = Vec::new();
        let mut i: usize = 0;
        while i < self.entries.len()
            invariant
                i <= self.entries@.len(),
                times@.len() == i,
                forall|j: int|
                    0 <= j < i ==> times@[j] == (#[trigger] self.entries@[j]).1.reserved_at(),
            decreases self.entries@.len() - i,
        {
            let unlock_timestamp: u64 = self.entries[i].1.reservation.unlock_timestamp;
            times.push(unlock_timestamp.saturating_sub(RESERVATION_DURATION_HOURS * 3600));
            i = i + 1;
        }
        assert forall|time: u64| times@.contains(time) <==> is_reservation_time(self@, time) by {
            if times@.contains(time) {
                let j = times@.index_of(time);
                lemma_by_id_at(self.entries@, j);
                assert(self@.dom().contains(self.entries@[j].0));
                assert(self@[self.entries@[j].0].reserved_at() == time);
            }
            if is_reservation_time(self@, time) {
                let id = choose|id: U256| #[trigger]
                    self@.dom().contains(id) && self@[id].reserved_at() == time;
                let j = position_of(self.entries@, id);
                assert(self.entries@[j].1.reserved_at() == time);
                assert(times@[j] == time);
            }
        }
        times
    }

    /// Watches `reservation` under the id `swap_reservation_index`, in place of what was there.
    pub fn insert(&mut self, swap_reservation_index: U256, reservation: ReservationMetadata)
        requires
            old(self).wf(),
        ensures
            final(self).wf(),
            final(self)@ == old(self)@.insert(swap_reservation_index, reservation),
            final(self).contract_hashes() == old(self).contract_hashes(),
    {
        match self.find(swap_reservation_index) {
            Some(i) => {
                let ghost before = self.entries@;
                self.entries[i].1 = reservation;
                proof {
                    lemma_updated(before, self.entries@, i as int);
                }
            },
            None => {
                let ghost before = self.entries@;
                self.entries.push((swap_reservation_index, reservation));
                proof {
                    let after = self.entries@;
                    assert(distinct_ids(after)) by {
                        assert forall|a: int, b: int| 0 <= a < b < after.len() implies (
                        #[trigger] after[a]).0 != (#[trigger] after[b]).0 by {
                            if b == before.len() {
                                assert(has_id(before, before[a].0));
                            }
                        }
                    }
                    lemma_by_id_at(after, before.len() as int);
                    assert forall|id: U256| by_id(after).dom().contains(id) <==> by_id(before).insert(
                        swap_reservation_index,
                        reservation,
                    ).dom().contains(id) by {
                        if has_id(before, id) {
                            assert(after[position_of(before, id)].0 == id);
                        }
                        if has_id(after, id) {
                            let p = position_of(after, id);
                            assert(p < before.len() ==> before[p].0 == id);
                        }
                    }
                    assert forall|id: U256| by_id(before).dom().contains(id) implies by_id(after)[id]
                        == by_id(before)[id] by {
                        let p = position_of(before, id);
                        assert(after[p].0 == id);
                        lemma_by_id_at(after, p);
                    }
                    assert(by_id(after) =~= by_id(before).insert(swap_reservation_index, reservation));
                }
            },
        }
    }

    /// Takes the entry at `i` out.
    fn remove_at(&mut self, i: usize)
        requires
            old(self).wf(),
            i < old(self).entries@.len(),
        ensures
            final(self).wf(),
            final(self).entries@ == old(self).entries@.remove(i as int),
            final(self)@ == old(self)@.remove(old(self).entries@[i as int].0),
            final(self).contract_hashes() == old(self).contract_hashes(),
    {
        let ghost before = self.entries@;
        self.entries.remove(i);
        proof {
            let after = self.entries@;
            let gone = before[i as int].0;
            assert forall|k: int| 0 <= k < after.len() implies #[trigger] after[k] == before[if k
                < i {
                k
            } else {
                k + 1
            }] by {}
            assert(distinct_ids(after)) by {
                assert forall|a: int, b: int| 0 <= a < b < after.len() implies (#[trigger] after[a]).0
                    != (#[trigger] after[b]).0 by {
                    let a0 = if a < i { a } else { a + 1 };
                    let b0 = if b < i { b } else { b + 1 };
                    assert(before[a0].0 != before[b0].0);
                }
            }
            assert forall|id: U256| by_id(after).dom().contains(id) <==> by_id(before).remove(
                gone,
            ).dom().contains(id) by {
                if has_id(before, id) && id != gone {
                    let p = position_of(before, id);
                    let q = if p < i { p } else { p - 1 };
                    assert(after[q].0 == id);
                }
                if has_id(after, id) {
                    let q = position_of(after, id);
                    let p = if q < i { q } else { q + 1 };
                    assert(before[p].0 == id);
                    if p < i {
                        assert(before[p].0 != before[i as int].0);
                    } else {
                        assert(before[i as int].0 != before[p].0);
                    }
                }
            }
            assert forall|id: U256| by_id(after).dom().contains(id) implies by_id(after)[id]
                == by_id(before)[id] by {
                let q = position_of(after, id);
                let p = if q < i { q } else { q + 1 };
                assert(before[p].0 == id);
                lemma_by_id_at(before, p);
                lemma_by_id_at(after, q);
            }
            assert(by_id(after) =~= by_id(before).remove(gone));
        }
    }

    /// Stops watching the reservation with `id`, if it is watched.
    pub fn remove(&mut self, id: U256)
        requires
            old(self).wf(),
        ensures
            final(self).wf(),
            final(self)@ == old(self)@.remove(id),
            final(self).contract_hashes() == old(self).contract_hashes(),
    {
        match self.find(id) {
            Some(i) => {
                self.remove_at(i);
            },
            None => {
                assert(self@ =~= self@.remove(id));
            },
        }
    }

    /// Stops watching every reservation that expired before `current_timestamp`.
    pub fn drop_expired_reservations(&mut self, current_timestamp: u64)
        requires
            old(self).wf(),
        ensures
            final(self).wf(),
            final(self)@ == unexpired(old(self)@, current_timestamp),
            final(self).contract_hashes() == old(self).contract_hashes(),
    {
        let mut i: usize = 0;
        while i < self.entries.len()
            invariant
                i <= self.entries@.len(),
                self.wf(),
                self.contract_hashes() == old(self).contract_hashes(),
                unexpired(self@, current_timestamp) == unexpired(old(self)@, current_timestamp),
                forall|j: int|
                    0 <= j < i ==> !(#[trigger] self.entries@[j]).1.expired(current_timestamp),
            decreases self.entries@.len() - i,
        {
            let ghost before = self@;
            proof {
                lemma_by_id_at(self.entries@, i as int);
            }
            if self.entries[i].1.reservation.unlock_timestamp < current_timestamp {
                self.remove_at(i);
                assert(unexpired(self@, current_timestamp) =~= unexpired(before, current_timestamp));
            } else {
                i = i + 1;
            }
        }
        proof {
            assert forall|id: U256| self@.dom().contains(id) implies !self@[id].expired(
                current_timestamp,
            ) by {
                let p = position_of(self.entries@, id);
                assert(!self.entries@[p].1.expired(current_timestamp));
            }
            assert(self@ =~= unexpired(self@, current_timestamp));
        }
    }

    /// Notes that a payment for the reservation with `id` was seen.
    pub fn update_btc_reservation(
        &mut self,
        id: U256,
        proposed_block_height: u64,
        proposed_block_hash: [u8; 32],
        txid: [u8; 32],
    )
        requires
            old(self).wf(),
            old(self)@.dom().contains(id),
        ensures
            final(self).wf(),
            final(self)@ == old(self)@.insert(
                id,
                old(self)@[id].with_btc(
                    BitcoinReservationInProgress::seen(
                        proposed_block_height,
                        proposed_block_hash,
                        txid,
                    ),
                ),
            ),
            final(self).contract_hashes() == old(self).contract_hashes(),
    {
        if let Some(i) = self.find(id) {
            let ghost before = self.entries@;
            self.entries[i].1.btc = Some(
                BitcoinReservationInProgress::new(proposed_block_height, proposed_block_hash, txid),
            );
            proof {
                lemma_updated(before, self.entries@, i as int);
            }
        }
    }

    /// Notes that the payment for the reservation with `id` is confirmed, and what its proof is
    /// made from.
    pub fn update_btc_reservation_final(
        &mut self,
        id: U256,
        confirmation_height: u64,
        confirmation_block_hash: [u8; 32],
        safe_block_height: u64,
        safe_block_chainwork: [u8; 32],
        blocks: Vec<Block>,
        retarget_block: Block,
        retarget_block_height: u64,
    )
        requires
            old(self).wf(),
            old(self)@.dom().contains(id),
        ensures
            final(self).wf(),
            final(self)@ == old(self)@.insert(
                id,
                old(self)@[id].with_final(
                    (BitcoinReservationFinal {
                        confirmation_height,
                        confirmation_block_hash,
                        safe_block_height,
                        safe_block_chainwork,
                        blocks,
                        retarget_block,
                        retarget_block_height,
                    }),
                ),
            ),
            final(self).contract_hashes() == old(self).contract_hashes(),
    {
        if let Some(i) = self.find(id) {
            let ghost before = self.entries@;
            if let Some(btc) = &mut self.entries[i].1.btc {
                btc.confirmation_height = Some(confirmation_height);
                btc.confirmation_block_hash = Some(confirmation_block_hash);
            }
            self.entries[i].1.btc_final = Some(
                BitcoinReservationFinal {
                    confirmation_height,
                    confirmation_block_hash,
                    safe_block_height,
                    safe_block_chainwork,
                    blocks,
                    retarget_block,
                    retarget_block_height,
                },
            );
            proof {
                assert(self.entries@ =~= before.update(i as int, self.entries@[i as int]));
                lemma_updated(before, self.entries@, i as int);
            }
        }
    }

    /// Keeps the proof of the payment for the reservation with `id`, and its public inputs.
    pub fn update_proof_data(&mut self, id: U256, proof: Vec<u8>, public_inputs: Vec<u8>)
        requires
            old(self).wf(),
            old(self)@.dom().contains(id),
        ensures
            final(self).wf(),
            final(self)@ == old(self)@.insert(id, old(self)@[id].with_proof(proof, public_inputs)),
            final(self).contract_hashes() == old(self).contract_hashes(),
    {
        if let Some(i) = self.find(id) {
            let ghost before = self.entries@;
            self.entries[i].1.proof = Some(proof);
            self.entries[i].1.public_inputs = Some(public_inputs);
            proof {
                assert(self.entries@ =~= before.update(i as int, self.entries@[i as int]));
                lemma_updated(before, self.entries@, i as int);
            }
        }
    }

    /// Notes that the contract knows the block with hash `block_hash` at `height`.
    pub fn record_contract_hash(&mut self, height: u64, block_hash: [u8; 32])
        requires
            old(self).wf(),
        ensures
            final(self).wf(),
            final(self)@ == old(self)@,
            final(self).contract_hashes() == old(self).contract_hashes().insert(height, block_hash),
    {
        self.safe_contract_block_hashes.insert(height, block_hash);
    }

    /// The hash of the block at `height`, if the contract knows one.
    pub fn contract_hash(&self, height: u64) -> (r: Option<&[u8; 32]>)
        ensures
            match r {
                Some(hash) => self.contract_hashes().dom().contains(height) && *hash
                    == self.contract_hashes()[height],
                None => !self.contract_hashes().dom().contains(height),
            },
    {
        self.safe_contract_block_hashes.get(&height)
    }

    /// The heights of the blocks that the contract knows, lowest first.
    pub fn contract_heights(&self) -> (heights: Vec<u64>)
        ensures
            increasing(heights@),
            forall|height: u64|
                heights@.contains(height) <==> self.contract_hashes().dom().contains(height),
    {
        let mut heights: Vec<u64> = Vec::new();
        let ghost keys = self.safe_contract_block_hashes.keys().remaining();
        for height in iter: self.safe_contract_block_hashes.keys()
            invariant
                iter.seq() == keys,
                increasing(heights@),
                forall|h: u64|
                    heights@.contains(h) <==> exists|k: int|
                        0 <= k < iter.index() && *(#[trigger] keys[k]) == h,
        {
            insert_sorted(&mut heights, *height);
        }
        assert forall|h: u64| heights@.contains(h) <==> self.contract_hashes().dom().contains(h) by {
            let values = keys.unref();
            assert(values.to_set().contains(h) <==> values.contains(h));
            if heights@.contains(h) {
                let k = choose|k: int| 0 <= k < keys.len() && *(#[trigger] keys[k]) == h;
                assert(values[k] == h);
            }
            if values.contains(h) {
                let k = values.index_of(h);
                assert(*keys[k] == h);
            }
        }
        heights
    }
}

/// Whether the heights increase from one to the next.
pub open spec fn increasing(heights: Seq<u64>) -> bool {
    forall|i: int, j: int| 0 <= i < j < heights.len() ==> heights[i] < heights[j]
}

/// How many of the heights, which increase, are below `height`.
pub fn count_below(heights: &[u64], height: u64) -> (n: usize)
    requires
        increasing(heights@),
    ensures
        n <= heights@.len(),
        forall|i: int| 0 <= i < n ==> heights@[i] < height,
        forall|i: int| n <= i < heights@.len() ==> heights@[i] >= height,
{
    let mut low: usize = 0;
    let mut high: usize = heights.len();
    while low < high
        invariant
            increasing(heights@),
            low <= high <= heights@.len(),
            forall|i: int| 0 <= i < low ==> heights@[i] < height,
            forall|i: int| high <= i < heights@.len() ==> heights@[i] >= height,
        decreases high - low,
    {
        let middle: usize = low + (high - low) / 2;
        if heights[middle] < height {
            low = middle + 1;
        } else {
            high = middle;
        }
    }
    low
}

/// Adds `height` where it belongs, unless it is there already.
fn insert_sorted(heights: &mut Vec<u64>, height: u64)
    requires
        increasing(old(heights)@),
    ensures
        increasing(final(heights)@),
        forall|h: u64| final(heights)@.contains(h) <==> old(heights)@.contains(h) || h == height,
{
    let ghost before = heights@;
    let n: usize = count_below(heights.as_slice(), height);
    if n < heights.len() && heights[n] == height {
        assert(before[n as int] == height);
        return;
    }
    heights.insert(n, height);
    proof {
        let after = heights@;
        assert(after[n as int] == height);
        assert forall|h: u64| after.contains(h) <==> before.contains(h) || h == height by {
            if before.contains(h) {
                let i = before.index_of(h);
                assert(after[if i < n { i } else { i + 1 }] == h);
            }
            if after.contains(h) && h != height {
                let i = after.index_of(h);
                assert(before[if i < n { i } else { i - 1 }] == h);
            }
        }
    }
}

/// A reservation that was dropped as expired stays dropped, and dropping twice is dropping once by
/// the later time.
pub proof fn law_expiry(reservations: Map<U256, ReservationMetadata>, first: u64, second: u64)
    ensures
        unexpired(unexpired(reservations, first), second) == unexpired(
            reservations,
            if first <= second {
                second
            } else {
                first
            },
        ),
        unexpired(reservations, first).submap_of(reservations),
{
    assert(unexpired(unexpired(reservations, first), second) =~= unexpired(
        reservations,
        if first <= second {
            second
        } else {
            first
        },
    ));
}

/// Noting a payment, its confirmation or its proof changes just that of a reservation.
pub proof fn law_updates(
    metadata: ReservationMetadata,
    btc: BitcoinReservationInProgress,
    btc_final: BitcoinReservationFinal,
    proof_bytes: Vec<u8>,
    public_inputs: Vec<u8>,
)
    ensures
        ({
            let paid = metadata.with_btc(btc);
            let confirmed = metadata.with_final(btc_final);
            let proven = metadata.with_proof(proof_bytes, public_inputs);
            &&& paid.btc == Some(btc)
            &&& paid.reservation == metadata.reservation
            &&& paid.reserved_vaults == metadata.reserved_vaults
            &&& paid.btc_final == metadata.btc_final
            &&& paid.proof == metadata.proof
            &&& paid.public_inputs == metadata.public_inputs
            &&& confirmed.btc_final == Some(btc_final)
            &&& confirmed.btc is Some <==> metadata.btc is Some
            &&& metadata.btc is Some ==> {
                &&& confirmed.btc->0.proposed_block_height == metadata.btc->0.proposed_block_height
                &&& confirmed.btc->0.proposed_block_hash == metadata.btc->0.proposed_block_hash
                &&& confirmed.btc->0.txid == metadata.btc->0.txid
                &&& confirmed.btc->0.confirmation_height == Some(btc_final.confirmation_height)
                &&& confirmed.btc->0.confirmation_block_hash == Some(
                    btc_final.confirmation_block_hash,
                )
            }
            &&& confirmed.reservation == metadata.reservation
            &&& confirmed.reserved_vaults == metadata.reserved_vaults
            &&& confirmed.proof == metadata.proof
            &&& confirmed.public_inputs == metadata.public_inputs
            &&& proven.proof == Some(proof_bytes)
            &&& proven.public_inputs == Some(public_inputs)
            &&& proven.reservation == metadata.reservation
            &&& proven.reserved_vaults == metadata.reserved_vaults
            &&& proven.btc == metadata.btc
            &&& proven.btc_final == metadata.btc_final
        }),
{
}

/// A payment that was seen is known by the height and the hash of its block and by its id, and
/// nothing is known of its confirmation.
pub proof fn law_seen(height: u64, block_hash: [u8; 32], txid: [u8; 32])
    ensures
        ({
            let payment = BitcoinReservationInProgress::seen(height, block_hash, txid);
            &&& payment.proposed_block_height == height
            &&& payment.proposed_block_hash == block_hash
            &&& payment.txid == txid
            &&& payment.confirmation_height is None
            &&& payment.confirmation_block_hash is None
        }),
{
}

/// What is left at some time are exactly the reservations whose last second is not before it, each
/// as it was.
pub proof fn law_unexpired(
    reservations: Map<U256, ReservationMetadata>,
    timestamp: u64,
    id: U256,
)
    ensures
        unexpired(reservations, timestamp).dom().contains(id) <==> reservations.dom().contains(id)
            && reservations[id].reservation.unlock_timestamp >= timestamp,
        unexpired(reservations, timestamp).dom().contains(id) ==> unexpired(
            reservations,
            timestamp,
        )[id] == reservations[id],
{
}

/// A reservation is open for eight hours from when it was made.
pub proof fn law_reserved_at(metadata: ReservationMetadata)
    ensures
        metadata.reservation.unlock_timestamp >= 28_800 ==> metadata.reserved_at() + 28_800
            == metadata.reservation.unlock_timestamp,
        metadata.reservation.unlock_timestamp < 28_800 ==> metadata.reserved_at() == 0,
{
}

/// What is held under an id is what its entry holds, where no two entries have the same id.
pub proof fn law_by_id(entries: Seq<(U256, ReservationMetadata)>, id: U256)
    requires
        distinct_ids(entries),
    ensures
        by_id(entries).dom().contains(id) <==> exists|i: int|
            0 <= i < entries.len() && (#[trigger] entries[i]).0 == id,
        forall|i: int|
            0 <= i < entries.len() && (#[trigger] entries[i]).0 == id ==> by_id(entries)[id]
                == entries[i].1,
{
    assert forall|i: int| 0 <= i < entries.len() && (#[trigger] entries[i]).0 == id implies by_id(
        entries,
    )[id] == entries[i].1 by {
        lemma_by_id_at(entries, i);
    }
}

/// The times of the reservations are, for each of them and for no other, eight hours before its last
/// second, or the beginning of time.
pub proof fn law_reservation_time(reservations: Map<U256, ReservationMetadata>, time: u64)
    ensures
        is_reservation_time(reservations, time) <==> exists|id: U256|
            {
                &&& #[trigger] reservations.dom().contains(id)
                &&& if reservations[id].reservation.unlock_timestamp < 28_800 {
                    time == 0
                } else {
                    time + 28_800 == reservations[id].reservation.unlock_timestamp
                }
            },
{
    assert forall|id: U256| #[trigger] reservations.dom().contains(id) implies (
    reservations[id].reserved_at() == time) == (if reservations[id].reservation.unlock_timestamp
        < 28_800 {
        time == 0
    } else {
        time + 28_800 == reservations[id].reservation.unlock_timestamp
    }) by {
        law_reserved_at(reservations[id]);
    }
}

} // verus!
