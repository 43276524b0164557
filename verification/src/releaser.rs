//! The reservations whose liquidity is to be released, and when.

use vstd::prelude::*;

use crate::u256::U256;

verus! {

/// A request to release the liquidity of a reservation once its challenge period is over.
#[derive(Debug, Clone, Copy, PartialEq, Eq)]
pub struct ReleaserRequestInput {
    pub reservation_id: U256,
    /// The second after which the liquidity can be released.
    pub unlock_timestamp: u64,
}

impl ReleaserRequestInput {
    /// A request to release the liquidity of `reservation_id` after `unlock_timestamp`.
    pub fn new(reservation_id: U256, unlock_timestamp: u64) -> (request: Self)
        ensures
            request.reservation_id == reservation_id,
            request.unlock_timestamp == unlock_timestamp,
    {
        ReleaserRequestInput { reservation_id, unlock_timestamp }
    }

    /// Whether the liquidity can be released at `timestamp`.
    pub open spec fn ready(self, timestamp: u64) -> bool {
        timestamp > self.unlock_timestamp
    }
}

/// Whether one of the requests is for the reservation with `id`.
pub open spec fn requested(requests: Seq<ReleaserRequestInput>, id: U256) -> bool {
    exists|i: int| 0 <= i < requests.len() && (#[trigger] requests[i]).reservation_id == id
}

/// The requests with one more, unless there is one for the same reservation.
pub open spec fn added(
    requests: Seq<ReleaserRequestInput>,
    request: ReleaserRequestInput,
) -> Seq<ReleaserRequestInput> {
    if requested(requests, request.reservation_id) {
        requests
    } else {
        requests.push(request)
    }
}

/// The requests that are ready at `timestamp`, in their order.
pub open spec fn ready_at(requests: Seq<ReleaserRequestInput>, timestamp: u64) -> Seq<
    ReleaserRequestInput,
>
    decreases requests.len(),
{
    if requests.len() == 0 {
        Seq::empty()
    } else {
        let rest = ready_at(requests.drop_last(), timestamp);
        if requests.last().ready(timestamp) {
            rest.push(requests.last())
        } else {
            rest
        }
    }
}

/// The requests that are not ready at `timestamp`, in their order.
pub open spec fn waiting_at(requests: Seq<ReleaserRequestInput>, timestamp: u64) -> Seq<
    ReleaserRequestInput,
>
    decreases requests.len(),
{
    if requests.len() == 0 {
        Seq::empty()
    } else {
        let rest = waiting_at(requests.drop_last(), timestamp);
        if requests.last().ready(timestamp) {
            rest
        } else {
            rest.push(requests.last())
        }
    }
}

/// The requests that wait, in the order that they came in, at most one for each reservation.
pub struct ReleaserQueue {
    release_queue: Vec<ReleaserRequestInput>,
}

impl View for ReleaserQueue {
    type V = Seq<ReleaserRequestInput>;

    closed spec fn view(&self) -> Seq<ReleaserRequestInput> {
        self.release_queue@
    }
}

/// Whether no two of the requests are for the same reservation.
pub open spec fn one_each(requests: Seq<ReleaserRequestInput>) -> bool {
    forall|i: int, j: int|
        0 <= i < j < requests.len() ==> (#[trigger] requests[i]).reservation_id != (
        #[trigger] requests[j]).reservation_id
}

impl ReleaserQueue {
    /// A queue without requests.
    pub fn new() -> (queue: Self)
        ensures
            queue@ == Seq::<ReleaserRequestInput>::empty(),
            one_each(queue@),
    {
        ReleaserQueue { release_queue: Vec::new() }
    }

    /// Takes a request in, unless there is one for the same reservation. Says whether it did.
    pub fn add(&mut self, req: ReleaserRequestInput) -> (fresh: bool)
        ensures
            final(self)@ == added(old(self)@, req),
            fresh == !requested(old(self)@, req.reservation_id),
            one_each(old(self)@) ==> one_each(final(self)@),
    {
        let mut i: usize = 0;
        while i < self.release_queue.len()
            invariant
                self@ == old(self)@,
                i <= self@.len(),
                forall|j: int| 0 <= j < i ==> (#[trigger] self@[j]).reservation_id
                    != req.reservation_id,
            decreases self@.len() - i,
        {
            if self.release_queue[i].reservation_id == req.reservation_id {
                assert(self@[i as int].reservation_id == req.reservation_id);
                return false;
            }
            i = i + 1;
        }
        self.release_queue.push(req);
        true
    }

    /// Takes out the requests that are ready at `current_timestamp`; the others keep waiting.
    pub fn take_ready(&mut self, current_timestamp: u64) -> (ready: Vec<ReleaserRequestInput>)
        ensures
            ready@ == ready_at(old(self)@, current_timestamp),
            final(self)@ == waiting_at(old(self)@, current_timestamp),
            one_each(old(self)@) ==> one_each(final(self)@),
            forall|request: ReleaserRequestInput|
                #[trigger] ready@.contains(request) <==> old(self)@.contains(request)
                    && current_timestamp > request.unlock_timestamp,
            forall|request: ReleaserRequestInput|
                #[trigger] final(self)@.contains(request) <==> old(self)@.contains(request)
                    && current_timestamp <= request.unlock_timestamp,
    {
        let ghost all = self@;
        let mut ready: Vec<ReleaserRequestInput> = Vec::new();
        let mut not_ready: Vec<ReleaserRequestInput> = Vec::new();
        let mut i: usize = 0;
        while i < self.release_queue.len()
            invariant
                self@ == all,
                i <= all.len(),
                ready@ == ready_at(all.take(i as int), current_timestamp),
                not_ready@ == waiting_at(all.take(i as int), current_timestamp),
            decreases all.len() - i,
        {
            assert(all.take(i + 1).drop_last() =~= all.take(i as int));
            assert(all.take(i + 1).last() == all[i as int]);
            let req = self.release_queue[i];
            if current_timestamp > req.unlock_timestamp {
                ready.push(req);
            } else {
                not_ready.push(req);
            }
            i = i + 1;
        }
        assert(all.take(i as int) =~= all);
        self.release_queue = not_ready;
        proof {
            law_partition(all, current_timestamp);
        }
        ready
    }
}

/// A request is taken out exactly when it is ready, and keeps waiting exactly when it is not; so
/// where there was one for each reservation, no reservation is both taken out and kept.
pub proof fn law_partition(requests: Seq<ReleaserRequestInput>, timestamp: u64)
    ensures
        forall|request: ReleaserRequestInput|
            #[trigger] ready_at(requests, timestamp).contains(request) <==> requests.contains(request)
                && request.ready(timestamp),
        forall|request: ReleaserRequestInput|
            #[trigger] waiting_at(requests, timestamp).contains(request) <==> requests.contains(request)
                && !request.ready(timestamp),
        ready_at(requests, timestamp).len() + waiting_at(requests, timestamp).len()
            == requests.len(),
        one_each(requests) ==> one_each(ready_at(requests, timestamp)) && one_each(
            waiting_at(requests, timestamp),
        ),
    decreases requests.len(),
{
    if requests.len() > 0 {
        let rest = requests.drop_last();
        law_partition(rest, timestamp);
        let last = requests.last();
        assert forall|request: ReleaserRequestInput|
            requests.contains(request) <==> rest.contains(request) || request == last by {
            if requests.contains(request) && request != last {
                assert(rest[requests.index_of(request)] == request);
            }
            if rest.contains(request) {
                assert(requests[rest.index_of(request)] == request);
            }
            assert(requests[requests.len() - 1] == last);
        }
        lemma_pushed(ready_at(rest, timestamp), last);
        lemma_pushed(waiting_at(rest, timestamp), last);
        assert forall|request: ReleaserRequestInput|
            #[trigger] ready_at(requests, timestamp).contains(request) <==> requests.contains(request)
                && request.ready(timestamp) by {
            assert(ready_at(rest, timestamp).contains(request) <==> rest.contains(request)
                && request.ready(timestamp));
            assert(requests.contains(request) <==> rest.contains(request) || request == last);
        }
        assert forall|request: ReleaserRequestInput|
            #[trigger] waiting_at(requests, timestamp).contains(request) <==> requests.contains(
                request,
            ) && !request.ready(timestamp) by {
            assert(waiting_at(rest, timestamp).contains(request) <==> rest.contains(request)
                && !request.ready(timestamp));
            assert(requests.contains(request) <==> rest.contains(request) || request == last);
        }
        if one_each(requests) {
            assert(one_each(rest));
            assert forall|i: int| 0 <= i < ready_at(rest, timestamp).len() implies (
            #[trigger] ready_at(rest, timestamp)[i]).reservation_id != last.reservation_id by {
                let request = ready_at(rest, timestamp)[i];
                assert(ready_at(rest, timestamp).contains(request));
                assert(requests[rest.index_of(request)] == request);
            }
            assert forall|i: int| 0 <= i < waiting_at(rest, timestamp).len() implies (
            #[trigger] waiting_at(rest, timestamp)[i]).reservation_id != last.reservation_id by {
                let request = waiting_at(rest, timestamp)[i];
                assert(waiting_at(rest, timestamp).contains(request));
                assert(requests[rest.index_of(request)] == request);
            }
        }
    }
}

/// The requests that are taken out are those whose second is over, and the others wait on, both in
/// the order that they came in.
pub proof fn law_taken_in_order(requests: Seq<ReleaserRequestInput>, timestamp: u64)
    ensures
        ready_at(requests, timestamp) == requests.filter(
            |request: ReleaserRequestInput| request.unlock_timestamp < timestamp,
        ),
        waiting_at(requests, timestamp) == requests.filter(
            |request: ReleaserRequestInput| request.unlock_timestamp >= timestamp,
        ),
    decreases requests.len(),
{
    reveal(Seq::filter);
    if requests.len() > 0 {
        law_taken_in_order(requests.drop_last(), timestamp);
    }
}

/// A request comes behind those that wait, and only where none of them is for its reservation.
pub proof fn law_added(requests: Seq<ReleaserRequestInput>, request: ReleaserRequestInput)
    ensures
        (exists|i: int|
            0 <= i < requests.len() && (#[trigger] requests[i]).reservation_id
                == request.reservation_id) ==> added(requests, request) == requests,
        (forall|i: int|
            0 <= i < requests.len() ==> (#[trigger] requests[i]).reservation_id
                != request.reservation_id) ==> added(requests, request) == requests.push(request),
{
}

/// What a sequence holds once a request was pushed.
proof fn lemma_pushed(requests: Seq<ReleaserRequestInput>, last: ReleaserRequestInput)
    ensures
        forall|request: ReleaserRequestInput|
            requests.push(last).contains(request) <==> requests.contains(request) || request
                == last,
{
    let pushed = requests.push(last);
    assert forall|request: ReleaserRequestInput|
        pushed.contains(request) <==> requests.contains(request) || request == last by {
        if requests.contains(request) {
            assert(pushed[requests.index_of(request)] == request);
        }
        if pushed.contains(request) && request != last {
            assert(requests[pushed.index_of(request)] == request);
        }
        assert(pushed[requests.len() as int] == last);
    }
}

/// What was taken out is not in the queue any more, and asking again later takes out nothing that
/// was taken out before.
pub proof fn law_released_once(requests: Seq<ReleaserRequestInput>, timestamp: u64, later: u64)
    requires
        one_each(requests),
    ensures
        forall|request: ReleaserRequestInput| #[trigger]
            ready_at(requests, timestamp).contains(request) ==> !requested(
                waiting_at(requests, timestamp),
                request.reservation_id,
            ) && !requested(
                ready_at(waiting_at(requests, timestamp), later),
                request.reservation_id,
            ),
{
    law_partition(requests, timestamp);
    let waiting = waiting_at(requests, timestamp);
    law_partition(waiting, later);
    assert forall|request: ReleaserRequestInput| #[trigger]
        ready_at(requests, timestamp).contains(request) implies !requested(
        waiting,
        request.reservation_id,
    ) && !requested(ready_at(waiting, later), request.reservation_id) by {
        if requested(waiting, request.reservation_id) {
            let i = choose|i: int|
                0 <= i < waiting.len() && (#[trigger] waiting[i]).reservation_id
                    == request.reservation_id;
            assert(waiting.contains(waiting[i]));
            let a = requests.index_of(request);
            let b = requests.index_of(waiting[i]);
            assert(requests[a] == request && requests[b] == waiting[i]);
        }
        let again = ready_at(waiting, later);
        if requested(again, request.reservation_id) {
            let i = choose|i: int|
                0 <= i < again.len() && (#[trigger] again[i]).reservation_id
                    == request.reservation_id;
            assert(again.contains(again[i]));
            assert(waiting[waiting.index_of(again[i])] == again[i]);
        }
    }
}

} // verus!
