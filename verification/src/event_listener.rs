//! What the events of the exchange contract mean for the reservations.

use vstd::arithmetic::div_mod::lemma_small_mod;
use vstd::prelude::*;

use crate::id_set::IdSet;
use crate::releaser::{
    added, law_partition, one_each, ready_at, requested, waiting_at, ReleaserQueue,
    ReleaserRequestInput,
};
use crate::store::{
    by_id, distinct_ids, has_id, law_by_id, position_of, unexpired, ActiveReservations,
    ReservationMetadata,
};
use crate::u256::{modulus, U256};

verus! {

/// An event of the exchange contract, as far as the first synchronization heeds it.
#[derive(Debug, Clone, Copy, PartialEq, Eq)]
pub enum ExchangeEvent {
    /// A reservation was made.
    LiquidityReserved(U256),
    /// The payment for a reservation was proven; it can still be challenged.
    ProofSubmitted(U256),
    /// The liquidity of a reservation was released.
    SwapComplete(U256),
    /// Anything else.
    Other,
}

/// Which reservations are open and which are in challenge.
pub struct SyncView {
    pub active: Set<U256>,
    pub in_challenge: Set<U256>,
}

/// Which reservations are open and which are in challenge after one more event.
pub open spec fn after_event(before: SyncView, event: ExchangeEvent) -> SyncView {
    match event {
        ExchangeEvent::LiquidityReserved(id) => SyncView {
            active: before.active.insert(id),
            in_challenge: before.in_challenge,
        },
        ExchangeEvent::ProofSubmitted(id) => SyncView {
            active: before.active.remove(id),
            in_challenge: before.in_challenge.insert(id),
        },
        ExchangeEvent::SwapComplete(id) => SyncView {
            active: before.active.remove(id),
            in_challenge: before.in_challenge.remove(id),
        },
        ExchangeEvent::Other => before,
    }
}

/// Which reservations are open and which are in challenge after all of `events`.
pub open spec fn after_events(events: Seq<ExchangeEvent>) -> SyncView
    decreases events.len(),
{
    if events.len() == 0 {
        SyncView { active: Set::empty(), in_challenge: Set::empty() }
    } else {
        after_event(after_events(events.drop_last()), events.last())
    }
}

/// The reservations that the events so far tell of.
pub struct ReservationSync {
    pub active: IdSet,
    pub in_challenge: IdSet,
}

impl View for ReservationSync {
    type V = SyncView;

    open spec fn view(&self) -> SyncView {
        SyncView { active: self.active@, in_challenge: self.in_challenge@ }
    }
}

impl ReservationSync {
    /// Whether no id is held twice.
    pub open spec fn wf(&self) -> bool {
        self.active.wf() && self.in_challenge.wf()
    }

    /// Takes one more event into account.
    pub fn observe(&mut self, event: ExchangeEvent)
        requires
            old(self).wf(),
        ensures
            final(self).wf(),
            final(self)@ == after_event(old(self)@, event),
    {
        match event {
            ExchangeEvent::LiquidityReserved(id) => {
                self.active.insert(id);
            },
            ExchangeEvent::ProofSubmitted(id) => {
                self.active.remove(id);
                self.in_challenge.insert(id);
            },
            ExchangeEvent::SwapComplete(id) => {
                self.active.remove(id);
                self.in_challenge.remove(id);
            },
            ExchangeEvent::Other => {},
        }
    }

    /// Goes through the events in their order.
    pub fn of_events(events: &[ExchangeEvent]) -> (sync: ReservationSync)
        ensures
            sync.wf(),
            sync@ == after_events(events@),
    {
        let mut sync = ReservationSync { active: IdSet::new(), in_challenge: IdSet::new() };
        let mut i: usize = 0;
        while i < events.len()
            invariant
                i <= events@.len(),
                sync.wf(),
                sync@ == after_events(events@.take(i as int)),
            decreases events@.len() - i,
        {
            assert(events@.take(i + 1).drop_last() =~= events@.take(i as int));
            assert(events@.take(i + 1).last() == events@[i as int]);
            sync.observe(events[i]);
            i = i + 1;
        }
        assert(events@.take(i as int) =~= events@);
        sync
    }

    /// The reservations to download: those that are open and those that are in challenge.
    pub fn to_download(&self) -> (ids: Vec<U256>)
        requires
            self.wf(),
        ensures
            ids@.no_duplicates(),
            ids@.to_set() == self@.active.union(self@.in_challenge),
    {
        self.active.union_ids(&self.in_challenge)
    }

    /// Takes over the reservations that were downloaded: those that are open are watched, those
    /// that are in challenge wait for their release.
    pub fn settle(
        &self,
        downloaded: Vec<(U256, ReservationMetadata)>,
        store: &mut ActiveReservations,
        release_queue: &mut ReleaserQueue,
    )
        requires
            old(store).wf(),
            distinct_ids(downloaded@),
        ensures
            final(store).wf(),
            final(store)@ == with_open(old(store)@, downloaded@, self@.active),
            final(store).contract_hashes() == old(store).contract_hashes(),
            final(release_queue)@ == with_releases(
                old(release_queue)@,
                downloaded@,
                self@.in_challenge,
            ),
            one_each(old(release_queue)@) ==> one_each(final(release_queue)@),
            forall|i: int|
                #![trigger downloaded@[i]]
                0 <= i < downloaded@.len() && self@.in_challenge.contains(downloaded@[i].0)
                    && !requested(old(release_queue)@, downloaded@[i].0)
                    ==> final(release_queue)@.contains(
                    (ReleaserRequestInput {
                        reservation_id: downloaded@[i].0,
                        unlock_timestamp: downloaded@[i].1.reservation.liquidity_unlocked_timestamp,
                    }),
                ),
            forall|i: int|
                #![trigger downloaded@[i]]
                0 <= i < downloaded@.len() && self@.active.contains(downloaded@[i].0)
                    ==> final(store)@.dom().contains(downloaded@[i].0)
                    && final(store)@[downloaded@[i].0] == downloaded@[i].1,
    {
        let ghost all = downloaded@;
        let mut i: usize = 0;
        assert(all.take(0) =~= Seq::empty());
        while i < downloaded.len()
            invariant
                i <= downloaded@.len(),
                all == downloaded@,
                release_queue@ == with_releases(
                    old(release_queue)@,
                    all.take(i as int),
                    self@.in_challenge,
                ),
                one_each(old(release_queue)@) ==> one_each(release_queue@),
            decreases downloaded@.len() - i,
        {
            assert(all.take(i + 1).drop_last() =~= all.take(i as int));
            assert(all.take(i + 1).last() == all[i as int]);
            let id = downloaded[i].0;
            if self.in_challenge.contains(id) {
                release_queue.add(
                    ReleaserRequestInput::new(
                        id,
                        downloaded[i].1.reservation.liquidity_unlocked_timestamp,
                    ),
                );
            }
            i = i + 1;
        }
        assert(all.take(i as int) =~= all);
        let mut rest = downloaded;
        proof {
            assert(all.skip(all.len() as int) =~= Seq::empty());
            assert(store@ =~= with_open(old(store)@, all.skip(all.len() as int), self@.active));
        }
        while rest.len() > 0
            invariant
                rest@ == all.take(rest@.len() as int),
                rest@.len() <= all.len(),
                distinct_ids(all),
                store.wf(),
                store@ == with_open(old(store)@, all.skip(rest@.len() as int), self@.active),
                store.contract_hashes() == old(store).contract_hashes(),
            decreases rest@.len(),
        {
            let ghost n = rest@.len();
            if let Some((id, metadata)) = rest.pop() {
                assert(all[n - 1] == (id, metadata));
                if self.active.contains(id) {
                    store.insert(id, metadata);
                }
                proof {
                    assert(rest@ =~= all.take(n - 1));
                    lemma_with_open(old(store)@, all, n - 1, self@.active);
                }
            }
        }
        assert(all.skip(0) =~= all);
        proof {
            assert forall|i: int|
                #![trigger all[i]]
                0 <= i < all.len() && self@.in_challenge.contains(all[i].0) && !requested(
                    old(release_queue)@,
                    all[i].0,
                ) implies release_queue@.contains(
                (ReleaserRequestInput {
                    reservation_id: all[i].0,
                    unlock_timestamp: all[i].1.reservation.liquidity_unlocked_timestamp,
                }),
            ) by {
                law_release_time(old(release_queue)@, all, self@.in_challenge, i, 0);
            }
            assert forall|i: int|
                #![trigger all[i]]
                0 <= i < all.len() && self@.active.contains(all[i].0) implies store@.dom().contains(
                all[i].0,
            ) && store@[all[i].0] == all[i].1 by {
                law_with_open(old(store)@, all, self@.active, all[i].0);
            }
        }
    }
}

/// The reservations that are watched once those of `downloaded` that are in `active` were added.
pub open spec fn with_open(
    before: Map<U256, ReservationMetadata>,
    downloaded: Seq<(U256, ReservationMetadata)>,
    active: Set<U256>,
) -> Map<U256, ReservationMetadata> {
    before.union_prefer_right(by_id(downloaded).restrict(active))
}

/// Adding one more of what was downloaded.
proof fn lemma_with_open(
    before: Map<U256, ReservationMetadata>,
    all: Seq<(U256, ReservationMetadata)>,
    k: int,
    active: Set<U256>,
)
    requires
        distinct_ids(all),
        0 <= k < all.len(),
    ensures
        with_open(before, all.skip(k), active) == if active.contains(all[k].0) {
            with_open(before, all.skip(k + 1), active).insert(all[k].0, all[k].1)
        } else {
            with_open(before, all.skip(k + 1), active)
        },
{
    let longer = all.skip(k);
    let shorter = all.skip(k + 1);
    assert(distinct_ids(longer)) by {
        assert forall|i: int, j: int| 0 <= i < j < longer.len() implies (#[trigger] longer[i]).0 != (
        #[trigger] longer[j]).0 by {
            assert(all[k + i].0 != all[k + j].0);
        }
    }
    assert(distinct_ids(shorter)) by {
        assert forall|i: int, j: int| 0 <= i < j < shorter.len() implies (#[trigger] shorter[i]).0
            != (#[trigger] shorter[j]).0 by {
            assert(all[k + 1 + i].0 != all[k + 1 + j].0);
        }
    }
    assert forall|id: U256| has_id(longer, id) <==> has_id(shorter, id) || id == all[k].0 by {
        if has_id(shorter, id) {
            assert(longer[position_of(shorter, id) + 1].0 == id);
        }
        if has_id(longer, id) && id != all[k].0 {
            let p = position_of(longer, id);
            assert(longer[p].0 == id);
            assert(shorter[p - 1].0 == id);
        }
        assert(longer[0].0 == all[k].0);
    }
    assert forall|id: U256| has_id(shorter, id) implies by_id(longer)[id] == by_id(shorter)[id]
        && id != all[k].0 by {
        let p = position_of(shorter, id);
        assert(shorter[p].0 == id);
        assert(longer[p + 1].0 == id);
        let q = position_of(longer, id);
        assert(longer[q].0 == id);
        if q < p + 1 {
            assert(longer[q].0 != longer[p + 1].0);
        } else if q > p + 1 {
            assert(longer[p + 1].0 != longer[q].0);
        }
        assert(longer[0].0 != longer[p + 1].0);
    }
    assert(by_id(longer)[all[k].0] == all[k].1) by {
        let q = position_of(longer, all[k].0);
        assert(longer[0].0 == all[k].0);
        assert(longer[q].0 == all[k].0);
        if q > 0 {
            assert(longer[0].0 != longer[q].0);
        }
    }
    assert(with_open(before, longer, active) =~= if active.contains(all[k].0) {
        with_open(before, shorter, active).insert(all[k].0, all[k].1)
    } else {
        with_open(before, shorter, active)
    });
}

/// The request to release the liquidity of a reservation: once its challenge period is over.
pub open spec fn release_of(id: U256, metadata: ReservationMetadata) -> ReleaserRequestInput {
    ReleaserRequestInput {
        reservation_id: id,
        unlock_timestamp: metadata.reservation.liquidity_unlocked_timestamp,
    }
}

/// The requests that wait once those of `downloaded` that are in `in_challenge` were added.
pub open spec fn with_releases(
    before: Seq<ReleaserRequestInput>,
    downloaded: Seq<(U256, ReservationMetadata)>,
    in_challenge: Set<U256>,
) -> Seq<ReleaserRequestInput>
    decreases downloaded.len(),
{
    if downloaded.len() == 0 {
        before
    } else {
        let rest = with_releases(before, downloaded.drop_last(), in_challenge);
        let (id, metadata) = downloaded.last();
        if in_challenge.contains(id) {
            added(
                rest,
                ReleaserRequestInput {
                    reservation_id: id,
                    unlock_timestamp: metadata.reservation.liquidity_unlocked_timestamp,
                },
            )
        } else {
            rest
        }
    }
}

/// A request stays when another is added.
proof fn lemma_added_keeps(
    requests: Seq<ReleaserRequestInput>,
    request: ReleaserRequestInput,
    id: U256,
)
    requires
        requested(requests, id) || request.reservation_id == id,
    ensures
        requested(added(requests, request), id),
{
    let after = added(requests, request);
    if requested(requests, id) {
        let i = choose|i: int|
            0 <= i < requests.len() && (#[trigger] requests[i]).reservation_id == id;
        assert(after[i].reservation_id == id);
    } else {
        assert(after.last().reservation_id == id);
    }
}

/// Every reservation in challenge that was downloaded waits for its release, and what waited before
/// still waits.
pub proof fn law_with_releases(
    before: Seq<ReleaserRequestInput>,
    downloaded: Seq<(U256, ReservationMetadata)>,
    in_challenge: Set<U256>,
    id: U256,
)
    requires
        requested(before, id) || has_id(downloaded, id) && in_challenge.contains(id),
    ensures
        requested(with_releases(before, downloaded, in_challenge), id),
    decreases downloaded.len(),
{
    if downloaded.len() > 0 {
        let shorter = downloaded.drop_last();
        let rest = with_releases(before, shorter, in_challenge);
        let (last_id, metadata) = downloaded.last();
        if last_id != id && !requested(before, id) {
            let p = position_of(downloaded, id);
            assert(downloaded[p].0 == id);
            assert(shorter[p].0 == id);
        }
        if requested(before, id) || has_id(shorter, id) {
            law_with_releases(before, shorter, in_challenge, id);
        }
        if in_challenge.contains(last_id) {
            lemma_added_keeps(
                rest,
                ReleaserRequestInput {
                    reservation_id: last_id,
                    unlock_timestamp: metadata.reservation.liquidity_unlocked_timestamp,
                },
                id,
            );
        }
    }
}

/// The requests that waited before stay where they are, and what is added is for reservations in
/// challenge that were downloaded.
pub proof fn law_releases_added(
    before: Seq<ReleaserRequestInput>,
    downloaded: Seq<(U256, ReservationMetadata)>,
    in_challenge: Set<U256>,
)
    ensures
        ({
            let after = with_releases(before, downloaded, in_challenge);
            &&& before.len() <= after.len()
            &&& after.take(before.len() as int) == before
            &&& forall|k: int|
                before.len() <= k < after.len() ==> {
                    &&& in_challenge.contains((#[trigger] after[k]).reservation_id)
                    &&& !requested(before, after[k].reservation_id)
                    &&& exists|i: int|
                        {
                            &&& 0 <= i < downloaded.len()
                            &&& (#[trigger] downloaded[i]).0 == after[k].reservation_id
                            &&& downloaded[i].1.reservation.liquidity_unlocked_timestamp
                                == after[k].unlock_timestamp
                        }
                }
        }),
    decreases downloaded.len(),
{
    let after = with_releases(before, downloaded, in_challenge);
    if downloaded.len() == 0 {
        assert(after.take(before.len() as int) =~= before);
    } else {
        let shorter = downloaded.drop_last();
        let rest = with_releases(before, shorter, in_challenge);
        law_releases_added(before, shorter, in_challenge);
        assert(after.take(before.len() as int) =~= rest.take(before.len() as int));
        assert forall|k: int| before.len() <= k < after.len() implies {
            &&& in_challenge.contains((#[trigger] after[k]).reservation_id)
            &&& !requested(before, after[k].reservation_id)
            &&& exists|i: int|
                {
                    &&& 0 <= i < downloaded.len()
                    &&& (#[trigger] downloaded[i]).0 == after[k].reservation_id
                    &&& downloaded[i].1.reservation.liquidity_unlocked_timestamp
                        == after[k].unlock_timestamp
                }
        } by {
            if k < rest.len() {
                assert(after[k] == rest[k]);
                let i = choose|i: int|
                    {
                        &&& 0 <= i < shorter.len()
                        &&& (#[trigger] shorter[i]).0 == rest[k].reservation_id
                        &&& shorter[i].1.reservation.liquidity_unlocked_timestamp
                            == rest[k].unlock_timestamp
                    };
                assert(downloaded[i] == shorter[i]);
            } else {
                let last = downloaded.len() - 1;
                assert(downloaded[last] == downloaded.last());
                if requested(before, downloaded[last].0) {
                    law_with_releases(before, shorter, in_challenge, downloaded[last].0);
                }
            }
        }
    }
}

/// A reservation in challenge that was downloaded, and for which no request waited before, waits for
/// its own liquidity to be unlocked: its request is ready at the times after that second, and at no
/// other, whatever else is known of the reservation.
pub proof fn law_release_time(
    before: Seq<ReleaserRequestInput>,
    downloaded: Seq<(U256, ReservationMetadata)>,
    in_challenge: Set<U256>,
    i: int,
    timestamp: u64,
)
    requires
        distinct_ids(downloaded),
        0 <= i < downloaded.len(),
        in_challenge.contains(downloaded[i].0),
        !requested(before, downloaded[i].0),
    ensures
        ({
            let after = with_releases(before, downloaded, in_challenge);
            let request = ReleaserRequestInput {
                reservation_id: downloaded[i].0,
                unlock_timestamp: downloaded[i].1.reservation.liquidity_unlocked_timestamp,
            };
            &&& after.contains(request)
            &&& forall|k: int|
                0 <= k < after.len() && (#[trigger] after[k]).reservation_id == downloaded[i].0
                    ==> after[k] == request
            &&& ready_at(after, timestamp).contains(request) <==> timestamp
                > downloaded[i].1.reservation.liquidity_unlocked_timestamp
            &&& waiting_at(after, timestamp).contains(request) <==> timestamp
                <= downloaded[i].1.reservation.liquidity_unlocked_timestamp
        }),
{
    let after = with_releases(before, downloaded, in_challenge);
    let id = downloaded[i].0;
    let request = ReleaserRequestInput {
        reservation_id: id,
        unlock_timestamp: downloaded[i].1.reservation.liquidity_unlocked_timestamp,
    };
    law_releases_added(before, downloaded, in_challenge);
    assert forall|k: int|
        0 <= k < after.len() && (#[trigger] after[k]).reservation_id == id implies after[k]
        == request by {
        if k < before.len() {
            assert(after.take(before.len() as int)[k] == after[k]);
            assert(before[k].reservation_id == id);
        } else {
            let j = choose|j: int|
                {
                    &&& 0 <= j < downloaded.len()
                    &&& (#[trigger] downloaded[j]).0 == after[k].reservation_id
                    &&& downloaded[j].1.reservation.liquidity_unlocked_timestamp
                        == after[k].unlock_timestamp
                };
            if j < i {
                assert(downloaded[j].0 != downloaded[i].0);
            } else if i < j {
                assert(downloaded[i].0 != downloaded[j].0);
            }
        }
    }
    assert(has_id(downloaded, id));
    law_with_releases(before, downloaded, in_challenge, id);
    let k = choose|k: int| 0 <= k < after.len() && (#[trigger] after[k]).reservation_id == id;
    assert(after[k] == request);
    law_partition(after, timestamp);
}

/// Watching and releasing a proven reservation lets it wait for its own liquidity to be unlocked,
/// unless a request for it waits already.
pub proof fn law_release_of(
    before: Seq<ReleaserRequestInput>,
    id: U256,
    metadata: ReservationMetadata,
    timestamp: u64,
)
    requires
        !requested(before, id),
    ensures
        ({
            let after = added(before, release_of(id, metadata));
            let request = after.last();
            &&& after.len() == before.len() + 1
            &&& request.reservation_id == id
            &&& request.unlock_timestamp == metadata.reservation.liquidity_unlocked_timestamp
            &&& ready_at(after, timestamp).contains(request) <==> timestamp
                > metadata.reservation.liquidity_unlocked_timestamp
        }),
{
    let after = added(before, release_of(id, metadata));
    assert(after.contains(after.last()));
    law_partition(after, timestamp);
}

/// The open reservations that were downloaded are watched as they were downloaded; all others are
/// watched as before, if they were.
pub proof fn law_with_open(
    before: Map<U256, ReservationMetadata>,
    downloaded: Seq<(U256, ReservationMetadata)>,
    active: Set<U256>,
    id: U256,
)
    requires
        distinct_ids(downloaded),
    ensures
        ({
            let after = with_open(before, downloaded, active);
            &&& forall|i: int|
                0 <= i < downloaded.len() && (#[trigger] downloaded[i]).0 == id && active.contains(
                    id,
                ) ==> after.dom().contains(id) && after[id] == downloaded[i].1
            &&& !active.contains(id) || (forall|i: int|
                0 <= i < downloaded.len() ==> (#[trigger] downloaded[i]).0 != id) ==> {
                &&& after.dom().contains(id) <==> before.dom().contains(id)
                &&& before.dom().contains(id) ==> after[id] == before[id]
            }
        }),
{
    law_by_id(downloaded, id);
    assert forall|i: int|
        0 <= i < downloaded.len() && (#[trigger] downloaded[i]).0 == id && active.contains(
            id,
        ) implies with_open(before, downloaded, active).dom().contains(id) && with_open(
        before,
        downloaded,
        active,
    )[id] == downloaded[i].1 by {
        assert(has_id(downloaded, id));
    }
}

/// What is done about an event: a reservation that was made is watched, one that was proven is
/// watched and released, and where the contract learned of blocks, so many headers are read, up to
/// the height that many above the first. A reservation stops being watched where its swap is
/// complete, and only then.
pub proof fn law_handled(
    before: Map<U256, ReservationMetadata>,
    event: ListenedEvent,
    id: U256,
)
    ensures
        match event {
            ListenedEvent::SwapComplete(done) => {
                &&& action_for(event) is Nothing
                &&& watched_after(before, event).dom().contains(id) <==> before.dom().contains(id)
                    && id != done
            },
            ListenedEvent::LiquidityReserved(made) => {
                &&& action_for(event) == ListenerAction::WatchReservation(made)
                &&& watched_after(before, event) == before
            },
            ListenedEvent::ProofSubmitted(proven) => {
                &&& action_for(event) == ListenerAction::ReleaseReservation(proven)
                &&& watched_after(before, event) == before
            },
            ListenedEvent::BlocksAdded(start, count) => {
                &&& action_for(event) is ReadHeaders
                &&& start@ + count@ <= u64::MAX ==> action_for(event)->ReadHeaders_0 == start@
                    + count@
                &&& count@ <= usize::MAX ==> action_for(event)->ReadHeaders_1 == count@
                &&& watched_after(before, event) == before
            },
        },
        watched_after(before, event).dom().contains(id) ==> watched_after(before, event)[id]
            == before[id],
{
    if let ListenedEvent::BlocksAdded(start, count) = event {
        if start@ + count@ <= u64::MAX {
            lemma_small_mod(start@ + count@, modulus());
            lemma_small_mod(start@ + count@, 0x1_0000000000000000nat);
        }
        if count@ <= usize::MAX {
            lemma_small_mod(count@, 0x1_0000000000000000nat);
            lemma_small_mod(count@, (usize::MAX + 1) as nat);
        }
    }
}

/// Whether a reservation is made by the `i`-th event and neither proven nor completed by a later
/// one.
pub open spec fn opened_at(events: Seq<ExchangeEvent>, i: int, id: U256) -> bool {
    &&& 0 <= i < events.len()
    &&& events[i] == ExchangeEvent::LiquidityReserved(id)
    &&& forall|j: int|
        i < j < events.len() ==> #[trigger] events[j] != ExchangeEvent::ProofSubmitted(id)
            && events[j] != ExchangeEvent::SwapComplete(id)
}

/// Whether a reservation is proven by the `i`-th event and not completed by a later one.
pub open spec fn proven_at(events: Seq<ExchangeEvent>, i: int, id: U256) -> bool {
    &&& 0 <= i < events.len()
    &&& events[i] == ExchangeEvent::ProofSubmitted(id)
    &&& forall|j: int|
        i < j < events.len() ==> #[trigger] events[j] != ExchangeEvent::SwapComplete(id)
}

/// A reservation is open exactly when it was made and neither proven nor completed since; it is in
/// challenge exactly when it was proven and not completed since.
pub proof fn law_after_events(events: Seq<ExchangeEvent>, id: U256)
    ensures
        after_events(events).active.contains(id) <==> exists|i: int| opened_at(events, i, id),
        after_events(events).in_challenge.contains(id) <==> exists|i: int| proven_at(events, i, id),
    decreases events.len(),
{
    if events.len() > 0 {
        let rest = events.drop_last();
        let last = events.len() - 1;
        law_after_events(rest, id);
        if exists|i: int| opened_at(rest, i, id) {
            let i = choose|i: int| opened_at(rest, i, id);
            if events.last() != ExchangeEvent::ProofSubmitted(id) && events.last()
                != ExchangeEvent::SwapComplete(id) {
                assert forall|j: int| i < j < events.len() implies #[trigger] events[j]
                    != ExchangeEvent::ProofSubmitted(id) && events[j]
                    != ExchangeEvent::SwapComplete(id) by {
                    if j < last {
                        assert(rest[j] == events[j]);
                    }
                }
                assert(opened_at(events, i, id));
            }
        }
        if events.last() == ExchangeEvent::LiquidityReserved(id) {
            assert(opened_at(events, last, id));
        }
        if exists|i: int| opened_at(events, i, id) {
            let i = choose|i: int| opened_at(events, i, id);
            if i < last {
                assert(events[last] != ExchangeEvent::ProofSubmitted(id));
                assert forall|j: int| i < j < rest.len() implies #[trigger] rest[j]
                    != ExchangeEvent::ProofSubmitted(id) && rest[j]
                    != ExchangeEvent::SwapComplete(id) by {
                    assert(rest[j] == events[j]);
                }
                assert(opened_at(rest, i, id));
            }
        }
        if exists|i: int| proven_at(rest, i, id) {
            let i = choose|i: int| proven_at(rest, i, id);
            if events.last() != ExchangeEvent::SwapComplete(id) {
                assert forall|j: int| i < j < events.len() implies #[trigger] events[j]
                    != ExchangeEvent::SwapComplete(id) by {
                    if j < last {
                        assert(rest[j] == events[j]);
                    }
                }
                assert(proven_at(events, i, id));
            }
        }
        if events.last() == ExchangeEvent::ProofSubmitted(id) {
            assert(proven_at(events, last, id));
        }
        if exists|i: int| proven_at(events, i, id) {
            let i = choose|i: int| proven_at(events, i, id);
            if i < last {
                assert(events[last] != ExchangeEvent::SwapComplete(id));
                assert forall|j: int| i < j < rest.len() implies #[trigger] rest[j]
                    != ExchangeEvent::SwapComplete(id) by {
                    assert(rest[j] == events[j]);
                }
                assert(proven_at(rest, i, id));
            }
        }
    }
}

/// Which log an event stands in: the block, the transaction and the place in the block.
#[derive(Debug, Clone, Copy, PartialEq, Eq)]
pub struct LogId {
    pub block_number: Option<u64>,
    pub transaction_index: Option<u64>,
    pub log_index: Option<u64>,
}

/// Whether two numbers that may be missing are the same.
fn same_number(a: Option<u64>, b: Option<u64>) -> (r: bool)
    ensures
        r == (a == b),
{
    match (a, b) {
        (Some(a), Some(b)) => a == b,
        (None, None) => true,
        _ => false,
    }
}

impl LogId {
    /// Whether this is the same log.
    pub fn same(&self, other: &LogId) -> (r: bool)
        ensures
            r == (*self == *other),
    {
        same_number(self.block_number, other.block_number) && same_number(
            self.transaction_index,
            other.transaction_index,
        ) && same_number(self.log_index, other.log_index)
    }
}

/// An event that is listened for.
#[derive(Debug, Clone, Copy, PartialEq, Eq)]
pub enum ListenedEvent {
    SwapComplete(U256),
    LiquidityReserved(U256),
    ProofSubmitted(U256),
    /// The contract learned of blocks: the first height and how many.
    BlocksAdded(U256, U256),
}

/// What is to be done about an event.
#[derive(Debug, Clone, Copy, PartialEq, Eq)]
pub enum ListenerAction {
    /// Nothing more.
    Nothing,
    /// Download the reservation, then watch it.
    WatchReservation(U256),
    /// Download the reservation, then watch it and let it wait for its release.
    ReleaseReservation(U256),
    /// Read the headers that the contract knows: up to this height, this many.
    ReadHeaders(u64, usize),
}

/// What is to be done about an event that was not handled yet.
pub open spec fn action_for(event: ListenedEvent) -> ListenerAction {
    match event {
        ListenedEvent::SwapComplete(_) => ListenerAction::Nothing,
        ListenedEvent::LiquidityReserved(id) => ListenerAction::WatchReservation(id),
        ListenedEvent::ProofSubmitted(id) => ListenerAction::ReleaseReservation(id),
        ListenedEvent::BlocksAdded(start, count) => ListenerAction::ReadHeaders(
            (((start@ + count@) % modulus()) % 0x1_0000000000000000) as u64,
            ((count@ % 0x1_0000000000000000) % (usize::MAX + 1) as nat) as usize,
        ),
    }
}

/// Which of the reservations `before` are watched once an event was handled, before anything was
/// downloaded.
pub open spec fn watched_after(
    before: Map<U256, ReservationMetadata>,
    event: ListenedEvent,
) -> Map<U256, ReservationMetadata> {
    match event {
        ListenedEvent::SwapComplete(id) => before.remove(id),
        _ => before,
    }
}

/// Which of the reservations `before` are watched once an event was handled at `timestamp`: those
/// that are not expired, as the event leaves them.
pub open spec fn after_handling(
    before: Map<U256, ReservationMetadata>,
    event: ListenedEvent,
    timestamp: u64,
) -> Map<U256, ReservationMetadata> {
    watched_after(unexpired(before, timestamp), event)
}

/// A reservation is still watched once an event was handled exactly when it was watched before, its
/// last second is not over, and the event is not that its swap is complete; and it is watched as
/// before.
pub proof fn law_after_handling(
    before: Map<U256, ReservationMetadata>,
    event: ListenedEvent,
    timestamp: u64,
    id: U256,
)
    ensures
        after_handling(before, event, timestamp).dom().contains(id) <==> {
            &&& before.dom().contains(id)
            &&& before[id].reservation.unlock_timestamp >= timestamp
            &&& event != ListenedEvent::SwapComplete(id)
        },
        after_handling(before, event, timestamp).dom().contains(id) ==> after_handling(
            before,
            event,
            timestamp,
        )[id] == before[id],
{
}

/// The logs that were handled.
pub struct EventListener {
    processed_logs: Vec<LogId>,
}

impl View for EventListener {
    type V = Set<LogId>;

    closed spec fn view(&self) -> Set<LogId> {
        self.processed_logs@.to_set()
    }
}

impl EventListener {
    /// A listener that handled nothing yet.
    pub fn new() -> (listener: Self)
        ensures
            listener@ == Set::<LogId>::empty(),
    {
        let listener = EventListener { processed_logs: Vec::new() };
        assert(listener@ =~= Set::<LogId>::empty());
        listener
    }

    /// Whether a log was handled.
    fn contains(&self, log: &LogId) -> (r: bool)
        ensures
            r == self@.contains(*log),
    {
        let mut i: usize = 0;
        while i < self.processed_logs.len()
            invariant
                i <= self.processed_logs@.len(),
                forall|j: int| 0 <= j < i ==> self.processed_logs@[j] != *log,
            decreases self.processed_logs@.len() - i,
        {
            if self.processed_logs[i].same(log) {
                assert(self.processed_logs@.contains(self.processed_logs@[i as int]));
                return true;
            }
            i = i + 1;
        }
        false
    }

    /// Handles an event that comes in at `current_timestamp`, unless the log that it stands in was
    /// handled before, and says what is to be done about it.
    ///
    /// With the event the reservations that are expired are dropped. A log that was handled before
    /// changes nothing; what has expired since is dropped with the next event or block.
    pub fn handle(
        &mut self,
        log: LogId,
        event: ListenedEvent,
        current_timestamp: u64,
        active_reservations: &mut ActiveReservations,
    ) -> (action: ListenerAction)
        requires
            old(active_reservations).wf(),
        ensures
            final(self)@ == old(self)@.insert(log),
            final(active_reservations).wf(),
            final(active_reservations).contract_hashes() == old(
                active_reservations,
            ).contract_hashes(),
            if old(self)@.contains(log) {
                &&& action == ListenerAction::Nothing
                &&& final(active_reservations)@ == old(active_reservations)@
            } else {
                &&& action == action_for(event)
                &&& final(active_reservations)@ == watched_after(
                    unexpired(old(active_reservations)@, current_timestamp),
                    event,
                )
                &&& final(active_reservations)@ == after_handling(
                    old(active_reservations)@,
                    event,
                    current_timestamp,
                )
            },
    {
        if self.contains(&log) {
            assert(self@ =~= self@.insert(log));
            return ListenerAction::Nothing;
        }
        let ghost before = self.processed_logs@;
        self.processed_logs.push(log);
        proof {
            let after = before.push(log);
            assert forall|other: LogId| after.contains(other) <==> before.contains(other) || other
                == log by {
                if before.contains(other) {
                    assert(after[before.index_of(other)] == other);
                }
                assert(after[before.len() as int] == log);
            }
            assert(self@ =~= old(self)@.insert(log));
        }
        active_reservations.drop_expired_reservations(current_timestamp);
        match event {
            ListenedEvent::SwapComplete(id) => {
                active_reservations.remove(id);
                ListenerAction::Nothing
            },
            ListenedEvent::LiquidityReserved(id) => ListenerAction::WatchReservation(id),
            ListenedEvent::ProofSubmitted(id) => ListenerAction::ReleaseReservation(id),
            ListenedEvent::BlocksAdded(start, count) => ListenerAction::ReadHeaders(
                start.plus(count).low_u64(),
                count.low_usize(),
            ),
        }
    }
}

/// Watches a reservation that was downloaded and lets it wait for its release.
pub fn release_reservation(
    id: U256,
    metadata: ReservationMetadata,
    active_reservations: &mut ActiveReservations,
    release_queue: &mut ReleaserQueue,
)
    requires
        old(active_reservations).wf(),
    ensures
        final(active_reservations).wf(),
        final(active_reservations)@ == old(active_reservations)@.insert(id, metadata),
        final(active_reservations).contract_hashes() == old(active_reservations).contract_hashes(),
        final(release_queue)@ == added(
            old(release_queue)@,
            ReleaserRequestInput {
                reservation_id: id,
                unlock_timestamp: metadata.reservation.liquidity_unlocked_timestamp,
            },
        ),
        final(release_queue)@ == added(old(release_queue)@, release_of(id, metadata)),
        requested(final(release_queue)@, id),
        one_each(old(release_queue)@) ==> one_each(final(release_queue)@),
{
    let unlock_timestamp: u64 = metadata.reservation.liquidity_unlocked_timestamp;
    active_reservations.insert(id, metadata);
    let ghost before = release_queue@;
    release_queue.add(ReleaserRequestInput::new(id, unlock_timestamp));
    assert(!requested(before, id) ==> release_queue@.last().reservation_id == id);
}

/// What an event changes: a reservation that was made is open, one that was proven is in challenge
/// and not open, one whose swap is complete is neither; all others stay what they are.
pub proof fn law_after_event(before: SyncView, event: ExchangeEvent, id: U256)
    ensures
        ({
            let after = after_event(before, event);
            match event {
                ExchangeEvent::LiquidityReserved(made) => {
                    &&& after.active.contains(id) <==> id == made || before.active.contains(id)
                    &&& after.in_challenge.contains(id) <==> before.in_challenge.contains(id)
                },
                ExchangeEvent::ProofSubmitted(proven) => {
                    &&& after.active.contains(id) <==> id != proven && before.active.contains(id)
                    &&& after.in_challenge.contains(id) <==> id == proven
                        || before.in_challenge.contains(id)
                },
                ExchangeEvent::SwapComplete(done) => {
                    &&& after.active.contains(id) <==> id != done && before.active.contains(id)
                    &&& after.in_challenge.contains(id) <==> id != done
                        && before.in_challenge.contains(id)
                },
                ExchangeEvent::Other => {
                    &&& after.active.contains(id) <==> before.active.contains(id)
                    &&& after.in_challenge.contains(id) <==> before.in_challenge.contains(id)
                },
            }
        }),
{
}

} // verus!
