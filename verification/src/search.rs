//! The search for the block that a chain had some hours before its tip, or before the oldest of the
//! open reservations.

use vstd::arithmetic::div_mod::lemma_fundamental_div_mod;
use vstd::prelude::*;

use crate::constants::SCAN_MARGIN_HOURS;
use crate::store::{is_reservation_time, ReservationMetadata};
use crate::u256::U256;

verus! {

/// The chain that is searched.
#[derive(Debug, Clone, Copy, PartialEq, Eq, Structural)]
pub enum Chain {
    /// The first block is taken without looking at it.
    Bitcoin,
    /// Every block is looked at, the first one too.
    Evm,
}

/// How far a search is.
#[derive(Debug, Clone, Copy, PartialEq, Eq, Structural)]
pub enum SearchState {
    /// The block at this height is to be looked at.
    Check(u64),
    /// The search ended at this height.
    Found(u64),
}

/// A search that steps back from an estimate, an hour's worth of blocks at a time, until it comes
/// to a block that is old enough.
#[derive(Debug, Clone, Copy, PartialEq, Eq, Structural)]
pub struct HeightSearch {
    pub chain: Chain,
    /// The time that the block has to be from, or from before.
    pub target_timestamp: u64,
    /// How many blocks the chain makes in an hour, on average; one, where it makes fewer.
    pub blocks_per_hour: u64,
    pub state: SearchState,
}

/// `a - b`, or zero where `b` is the greater.
pub open spec fn monus(a: int, b: int) -> int {
    if a >= b {
        a - b
    } else {
        0
    }
}

/// How many blocks a chain with `average` seconds between its blocks makes in an hour; one, where
/// it makes fewer.
pub open spec fn hourly_blocks(average: u64) -> u64 {
    if 3600u64 / average == 0 {
        1
    } else {
        3600u64 / average
    }
}

/// Counts the blocks that a chain with `average` seconds between its blocks makes in an hour.
fn count_hourly_blocks(average: u64) -> (n: u64)
    requires
        average != 0,
    ensures
        n == hourly_blocks(average),
        n >= 1,
{
    let n: u64 = 3600 / average;
    if n == 0 {
        1
    } else {
        n
    }
}

/// Where a search that began at `first` is after `k` steps of `step` blocks.
pub open spec fn checkpoint(first: u64, step: u64, k: nat) -> int {
    monus(first as int, k * step)
}

/// The time that the scan has to start from, or from before, for a reservation that was made at
/// `time`.
pub open spec fn scan_target(time: u64) -> int {
    monus(time as int, SCAN_MARGIN_HOURS * 3600)
}

/// Whether `after` is `before` with the target lowered just so far that the search goes back to
/// before each of `times`.
pub open spec fn reaches(before: HeightSearch, times: Seq<u64>, after: HeightSearch) -> bool {
    &&& after == HeightSearch { target_timestamp: after.target_timestamp, ..before }
    &&& after.target_timestamp <= before.target_timestamp
    &&& forall|i: int|
        0 <= i < times.len() ==> after.target_timestamp <= scan_target(#[trigger] times[i])
    &&& after.target_timestamp == before.target_timestamp || exists|i: int|
        0 <= i < times.len() && after.target_timestamp == scan_target(#[trigger] times[i])
}

/// The search on the Bitcoin chain for the block `hours` before the tip, before it looks at any.
pub open spec fn bitcoin_search(
    tip_height: u64,
    tip_timestamp: u64,
    hours: u64,
    average: u64,
) -> HeightSearch {
    let first = monus(tip_height as int, hours * (3600u64 / average));
    HeightSearch {
        chain: Chain::Bitcoin,
        target_timestamp: (tip_timestamp - hours * 3600) as u64,
        blocks_per_hour: hourly_blocks(average),
        state: if first == 0 {
            SearchState::Found(0)
        } else {
            SearchState::Check(first as u64)
        },
    }
}

/// The search on an Ethereum chain for the block `hours` before the tip, before it looks at any.
pub open spec fn evm_search(
    tip_height: u64,
    tip_timestamp: u64,
    hours: u64,
    average: u64,
) -> HeightSearch {
    HeightSearch {
        chain: Chain::Evm,
        target_timestamp: monus(tip_timestamp as int, hours * 3600) as u64,
        blocks_per_hour: hourly_blocks(average),
        state: SearchState::Check(monus(tip_height as int, hours * (3600u64 / average)) as u64),
    }
}

impl HeightSearch {
    /// Begins a search on the Bitcoin chain for the block `hours` before the tip.
    pub fn bitcoin(
        current_block_height: u64,
        current_block_timestamp: u64,
        hours: u64,
        average_seconds_between_bitcoin_blocks: u64,
    ) -> (search: HeightSearch)
        requires
            hours * 3600 <= current_block_timestamp,
            average_seconds_between_bitcoin_blocks != 0,
            hours * (3600u64 / average_seconds_between_bitcoin_blocks) <= u64::MAX,
        ensures
            search == bitcoin_search(
                current_block_height,
                current_block_timestamp,
                hours,
                average_seconds_between_bitcoin_blocks,
            ),
            search.wf(),
            search.begun(),
            search.chain == Chain::Bitcoin,
            search.target_timestamp == current_block_timestamp - hours * 3600,
            search.blocks_per_hour == hourly_blocks(average_seconds_between_bitcoin_blocks),
            ({
                let first = monus(
                    current_block_height as int,
                    hours * (3600u64 / average_seconds_between_bitcoin_blocks),
                );
                search.state == if first == 0 {
                    SearchState::Found(0)
                } else {
                    SearchState::Check(first as u64)
                }
            }),
    {
        let estimated_blocks_ago: u64 = hours * (3600 / average_seconds_between_bitcoin_blocks);
        let first: u64 = current_block_height.saturating_sub(estimated_blocks_ago);
        HeightSearch {
            chain: Chain::Bitcoin,
            target_timestamp: current_block_timestamp - hours * 3600,
            blocks_per_hour: count_hourly_blocks(average_seconds_between_bitcoin_blocks),
            state: if first == 0 {
                SearchState::Found(0)
            } else {
                SearchState::Check(first)
            },
        }
    }

    /// Begins a search on an Ethereum chain for the block `hours` before the tip.
    pub fn evm(
        current_block_height: u64,
        current_timestamp: u64,
        hours: u64,
        average_time_between_evm_blocks: u64,
    ) -> (search: HeightSearch)
        requires
            hours * 3600 <= u64::MAX,
            average_time_between_evm_blocks != 0,
            hours * (3600u64 / average_time_between_evm_blocks) <= u64::MAX,
        ensures
            search == evm_search(
                current_block_height,
                current_timestamp,
                hours,
                average_time_between_evm_blocks,
            ),
            search.wf(),
            search.chain == Chain::Evm,
            search.target_timestamp == monus(current_timestamp as int, hours * 3600),
            search.blocks_per_hour == hourly_blocks(average_time_between_evm_blocks),
            search.state == SearchState::Check(
                monus(
                    current_block_height as int,
                    hours * (3600u64 / average_time_between_evm_blocks),
                ) as u64,
            ),
    {
        let estimated_blocks_ago: u64 = hours * (3600 / average_time_between_evm_blocks);
        HeightSearch {
            chain: Chain::Evm,
            target_timestamp: current_timestamp.saturating_sub(hours * 3600),
            blocks_per_hour: count_hourly_blocks(average_time_between_evm_blocks),
            state: SearchState::Check(current_block_height.saturating_sub(estimated_blocks_ago)),
        }
    }

    /// Lowers the target so that the search goes back to before each of `times`, which are those of
    /// the open reservations.
    pub fn reach_back(&mut self, times: &[u64])
        ensures
            reaches(*old(self), times@, *final(self)),
    {
        let ghost before = *self;
        let mut i: usize = 0;
        while i < times.len()
            invariant
                i <= times@.len(),
                reaches(before, times@.take(i as int), *self),
            decreases times@.len() - i,
        {
            let ghost shorter = times@.take(i as int);
            let ghost longer = times@.take(i + 1);
            let ghost lowered = self.target_timestamp;
            assert(forall|j: int| 0 <= j < i ==> longer[j] == #[trigger] shorter[j]);
            assert(longer[i as int] == times@[i as int]);
            let target: u64 = times[i].saturating_sub(SCAN_MARGIN_HOURS * 3600);
            if target < self.target_timestamp {
                self.target_timestamp = target;
            }
            proof {
                assert forall|j: int| 0 <= j < longer.len() implies self.target_timestamp
                    <= scan_target(#[trigger] longer[j]) by {
                    if j < i {
                        assert(shorter[j] == longer[j]);
                    }
                }
                if self.target_timestamp != before.target_timestamp {
                    if self.target_timestamp == lowered {
                        let j = choose|j: int|
                            0 <= j < shorter.len() && lowered == scan_target(#[trigger] shorter[j]);
                        assert(longer[j] == shorter[j]);
                    } else {
                        assert(self.target_timestamp == scan_target(longer[i as int]));
                    }
                }
            }
            i = i + 1;
        }
        assert(times@.take(i as int) =~= times@);
    }

    /// Whether the search is to look at a block above the first one, or has ended at the first
    /// one: so every search on the Bitcoin chain begins.
    pub open spec fn begun(self) -> bool {
        match self.state {
            SearchState::Check(height) => height > 0,
            SearchState::Found(height) => height == 0,
        }
    }

    /// The search once the block that was to be looked at turned out to be from `timestamp`.
    pub open spec fn observed(self, timestamp: u64) -> HeightSearch {
        match self.state {
            SearchState::Found(_) => self,
            SearchState::Check(height) => {
                let next = monus(height as int, self.blocks_per_hour as int) as u64;
                let state = if timestamp <= self.target_timestamp {
                    SearchState::Found(height)
                } else if self.chain == Chain::Evm && height == 0 {
                    SearchState::Found(height)
                } else if self.chain == Chain::Bitcoin && next == 0 {
                    SearchState::Found(next)
                } else {
                    SearchState::Check(next)
                };
                HeightSearch { state, ..self }
            },
        }
    }

    /// Takes note that the block that was to be looked at is from `block_timestamp`.
    pub fn observe(&mut self, block_timestamp: u64)
        ensures
            *final(self) == old(self).observed(block_timestamp),
            old(self).wf() ==> final(self).wf(),
    {
        if let SearchState::Check(height) = self.state {
            let next: u64 = height.saturating_sub(self.blocks_per_hour);
            self.state = if block_timestamp <= self.target_timestamp {
                SearchState::Found(height)
            } else if self.chain == Chain::Evm && height == 0 {
                SearchState::Found(height)
            } else if self.chain == Chain::Bitcoin && next == 0 {
                SearchState::Found(next)
            } else {
                SearchState::Check(next)
            };
        }
    }

    /// How many blocks lie below the one that is to be looked at, itself included.
    pub open spec fn remaining(self) -> nat {
        match self.state {
            SearchState::Check(height) => height as nat + 1,
            SearchState::Found(_) => 0,
        }
    }

    /// Whether every step goes back by at least one block.
    pub open spec fn wf(self) -> bool {
        self.blocks_per_hour >= 1
    }

    /// The height that the search ends at on a chain whose blocks are from the times `timestamps`.
    pub open spec fn result(self, timestamps: spec_fn(u64) -> u64) -> u64
        decreases self.remaining(),
        when self.wf()
    {
        match self.state {
            SearchState::Found(height) => height,
            SearchState::Check(height) => self.observed(timestamps(height)).result(timestamps),
        }
    }
}

/// A search ends at the first of its checkpoints that is old enough or that the chain starts with.
pub proof fn law_search_result(search: HeightSearch, timestamps: spec_fn(u64) -> u64)
    requires
        search.wf(),
        search.state is Check,
        search.chain == Chain::Bitcoin ==> search.state->Check_0 > 0,
    ensures
        ({
            let first = search.state->Check_0;
            let step = search.blocks_per_hour;
            let found = search.result(timestamps);
            exists|k: nat|
                {
                    &&& found == #[trigger] checkpoint(first, step, k)
                    &&& timestamps(found) <= search.target_timestamp || found == 0
                    &&& forall|j: nat|
                        j < k ==> {
                            &&& #[trigger] checkpoint(first, step, j) > 0
                            &&& timestamps(checkpoint(first, step, j) as u64)
                                > search.target_timestamp
                        }
                }
        }),
    decreases search.remaining(),
{
    let first = search.state->Check_0;
    let step = search.blocks_per_hour;
    let found = search.result(timestamps);
    let target = search.target_timestamp;
    assert(checkpoint(first, step, 0) == first);
    let next = search.observed(timestamps(first));
    if timestamps(first) <= target || (search.chain == Chain::Evm && first == 0) {
        assert(next.result(timestamps) == first);
        assert(found == checkpoint(first, step, 0));
    } else {
        let below = monus(first as int, step as int) as u64;
        assert(checkpoint(first, step, 1) == below);
        if next.state is Found {
            assert(next.result(timestamps) == below);
            assert(found == checkpoint(first, step, 1));
            assert forall|j: nat| j < 1 implies {
                &&& #[trigger] checkpoint(first, step, j) > 0
                &&& timestamps(checkpoint(first, step, j) as u64) > target
            } by {
                assert(j == 0);
            }
        } else {
            law_search_result(next, timestamps);
            assert(next.result(timestamps) == found);
            let k = choose|k: nat|
                {
                    &&& found == #[trigger] checkpoint(below, step, k)
                    &&& timestamps(found) <= target || found == 0
                    &&& forall|j: nat|
                        j < k ==> {
                            &&& #[trigger] checkpoint(below, step, j) > 0
                            &&& timestamps(checkpoint(below, step, j) as u64) > target
                        }
                };
            assert forall|j: nat| #[trigger] checkpoint(below, step, j) == checkpoint(
                first,
                step,
                j + 1,
            ) by {
                assert((j + 1) * step == j * step + step) by (nonlinear_arith);
                assert(j * step >= 0) by (nonlinear_arith);
            }
            assert(found == checkpoint(below, step, k));
            assert(found == checkpoint(first, step, k + 1));
            assert forall|j: nat| j < k + 1 implies {
                &&& #[trigger] checkpoint(first, step, j) > 0
                &&& timestamps(checkpoint(first, step, j) as u64) > target
            } by {
                if j > 0 {
                    let i = (j - 1) as nat;
                    assert(checkpoint(below, step, i) == checkpoint(first, step, i + 1));
                }
            }
        }
    }
}

/// A search that reaches back far enough for all of `times` ends at the first block of the chain,
/// or at one that is from before each of them. A time of zero has nothing before it.
pub proof fn law_scan_start(
    before: HeightSearch,
    search: HeightSearch,
    times: Seq<u64>,
    timestamps: spec_fn(u64) -> u64,
)
    requires
        before.wf(),
        before.chain == Chain::Bitcoin,
        before.begun(),
        reaches(before, times, search),
    ensures
        ({
            let found = search.result(timestamps);
            found == 0 || {
                &&& timestamps(found) <= before.target_timestamp
                &&& forall|i: int|
                    0 <= i < times.len() ==> timestamps(found) <= #[trigger] times[i] && (times[i]
                        > 0 ==> timestamps(found) < times[i])
            }
        }),
{
    if search.state is Check {
        law_search_result(search, timestamps);
        let found = search.result(timestamps);
        if found != 0 {
            assert forall|i: int| 0 <= i < times.len() implies timestamps(found)
                <= #[trigger] times[i] && (times[i] > 0 ==> timestamps(found) < times[i]) by {
                assert(search.target_timestamp <= scan_target(times[i]));
            }
        }
    }
}

/// No open reservation is older than the block that the scan starts with: a search that reaches
/// back far enough for the times of all the reservations ends at the first block of the chain, or
/// at one from before each reservation.
pub proof fn law_scan_before_reservations(
    before: HeightSearch,
    search: HeightSearch,
    reservations: Map<U256, ReservationMetadata>,
    times: Seq<u64>,
    timestamps: spec_fn(u64) -> u64,
    id: U256,
)
    requires
        before.wf(),
        before.chain == Chain::Bitcoin,
        before.begun(),
        reaches(before, times, search),
        forall|time: u64| times.contains(time) <==> is_reservation_time(reservations, time),
        reservations.dom().contains(id),
    ensures
        ({
            let found = search.result(timestamps);
            let reserved_at = reservations[id].reserved_at();
            found == 0 || {
                &&& timestamps(found) <= reserved_at
                &&& reserved_at > 0 ==> timestamps(found) < reserved_at
            }
        }),
{
    law_scan_start(before, search, times, timestamps);
    let time = reservations[id].reserved_at();
    assert(is_reservation_time(reservations, time));
    assert(times.contains(time));
    assert(times[times.index_of(time)] == time);
}

/// Taking a number away leaves what it lacks to the other, and nothing where it is the greater.
pub proof fn law_monus(a: int, b: int)
    ensures
        a >= b ==> monus(a, b) + b == a,
        a < b ==> monus(a, b) == 0,
{
}

/// A chain makes as many blocks in an hour as fit into its 3600 seconds, and is taken to make one
/// where none fits.
pub proof fn law_hourly_blocks(average: u64)
    requires
        average != 0,
    ensures
        hourly_blocks(average) >= 1,
        average > 3600 ==> hourly_blocks(average) == 1,
        average <= 3600 ==> hourly_blocks(average) * average <= 3600 < (hourly_blocks(average) + 1)
            * average,
{
    let n: int = 3600int / average as int;
    lemma_fundamental_div_mod(3600, average as int);
    assert(average * n <= 3600 < average * n + average);
    assert(n * average == average * n && (n + 1) * average == average * n + average)
        by (nonlinear_arith);
    if average <= 3600 {
        assert(n >= 1) by (nonlinear_arith)
            requires
                3600 < average * n + average,
                average <= 3600,
        ;
    } else {
        assert(n == 0) by (nonlinear_arith)
            requires
                average * n <= 3600,
                average > 3600,
                n >= 0,
        ;
    }
}

/// A search that reaches back for `times` goes back to an hour before the earliest of them, or to
/// the beginning of time where that is less than an hour after it, and no further than it would go
/// anyway where that is enough.
pub proof fn law_reaches(before: HeightSearch, times: Seq<u64>, after: HeightSearch)
    requires
        reaches(before, times, after),
    ensures
        after.chain == before.chain,
        after.blocks_per_hour == before.blocks_per_hour,
        after.state == before.state,
        before.target_timestamp >= after.target_timestamp,
        forall|i: int|
            0 <= i < times.len() ==> after.target_timestamp == 0 || after.target_timestamp + 3600
                <= #[trigger] times[i],
        before.target_timestamp == after.target_timestamp || exists|i: int|
            0 <= i < times.len() && (after.target_timestamp + 3600 == #[trigger] times[i]
                || after.target_timestamp == 0 && times[i] < 3600),
{
    assert forall|i: int| 0 <= i < times.len() implies after.target_timestamp == 0
        || after.target_timestamp + 3600 <= #[trigger] times[i] by {
        assert(after.target_timestamp <= scan_target(times[i]));
    }
    if after.target_timestamp != before.target_timestamp {
        let i = choose|i: int|
            0 <= i < times.len() && after.target_timestamp == scan_target(#[trigger] times[i]);
        assert(after.target_timestamp + 3600 == times[i] || times[i] < 3600);
    }
}

/// Looking at a block ends the search where the block is old enough; where it is not, the search
/// goes on an hour's worth of blocks below it, and ends at the first block of the chain: on the
/// Bitcoin chain without looking at it.
pub proof fn law_observed(search: HeightSearch, height: u64, timestamp: u64)
    requires
        search.state == SearchState::Check(height),
    ensures
        ({
            let after = search.observed(timestamp);
            &&& after.chain == search.chain
            &&& after.target_timestamp == search.target_timestamp
            &&& after.blocks_per_hour == search.blocks_per_hour
            &&& timestamp <= search.target_timestamp ==> after.state == SearchState::Found(height)
            &&& timestamp > search.target_timestamp && height > search.blocks_per_hour
                ==> after.state == SearchState::Check((height - search.blocks_per_hour) as u64)
            &&& timestamp > search.target_timestamp && height <= search.blocks_per_hour
                && search.chain == Chain::Bitcoin ==> after.state == SearchState::Found(0)
            &&& timestamp > search.target_timestamp && 0 < height <= search.blocks_per_hour
                && search.chain == Chain::Evm ==> after.state == SearchState::Check(0)
            &&& height == 0 && search.chain == Chain::Evm ==> after.state == SearchState::Found(0)
        }),
{
}

/// A search begins as many blocks below the tip as the chain makes in the hours, on average, and not
/// below the first block; a chain with less than one block an hour is searched from its tip.
pub proof fn law_search_begins(
    tip_height: u64,
    tip_timestamp: u64,
    hours: u64,
    average: u64,
)
    requires
        average != 0,
    ensures
        ({
            let bitcoin = bitcoin_search(tip_height, tip_timestamp, hours, average);
            let evm = evm_search(tip_height, tip_timestamp, hours, average);
            let ago = if average <= 3600 {
                hours * hourly_blocks(average)
            } else {
                0
            };
            let first = if ago <= tip_height {
                tip_height - ago
            } else {
                0
            };
            &&& bitcoin.chain == Chain::Bitcoin && evm.chain == Chain::Evm
            &&& hours * 3600 <= tip_timestamp ==> bitcoin.target_timestamp + hours * 3600
                == tip_timestamp
            &&& hours * 3600 <= tip_timestamp ==> evm.target_timestamp + hours * 3600
                == tip_timestamp
            &&& hours * 3600 > tip_timestamp ==> evm.target_timestamp == 0
            &&& bitcoin.blocks_per_hour == hourly_blocks(average)
            &&& evm.blocks_per_hour == hourly_blocks(average)
            &&& evm.state == SearchState::Check(first as u64)
            &&& first > 0 ==> bitcoin.state == SearchState::Check(first as u64)
            &&& first == 0 ==> bitcoin.state == SearchState::Found(0)
        }),
{
    law_hourly_blocks(average);
    let n: int = 3600int / average as int;
    lemma_fundamental_div_mod(3600, average as int);
    if average > 3600 {
        assert(n == 0) by (nonlinear_arith)
            requires
                average * n <= 3600,
                average > 3600,
                n >= 0,
        ;
        assert(hours * n == 0) by (nonlinear_arith)
            requires
                n == 0,
        ;
    }
    assert(hours * n >= 0) by (nonlinear_arith)
        requires
            n >= 0,
    ;
}

/// What a search finds is the first block of the chain, or one that is at least the hours older than
/// the tip.
pub proof fn law_old_enough(
    tip_height: u64,
    tip_timestamp: u64,
    hours: u64,
    average: u64,
    timestamps: spec_fn(u64) -> u64,
)
    requires
        average != 0,
        hours * 3600 <= tip_timestamp,
    ensures
        ({
            let found = bitcoin_search(tip_height, tip_timestamp, hours, average).result(timestamps);
            found == 0 || timestamps(found) + hours * 3600 <= tip_timestamp && found <= tip_height
        }),
        ({
            let found = evm_search(tip_height, tip_timestamp, hours, average).result(timestamps);
            found == 0 || timestamps(found) + hours * 3600 <= tip_timestamp && found <= tip_height
        }),
{
    let bitcoin = bitcoin_search(tip_height, tip_timestamp, hours, average);
    let evm = evm_search(tip_height, tip_timestamp, hours, average);
    law_search_begins(tip_height, tip_timestamp, hours, average);
    law_hourly_blocks(average);
    assert(hours * hourly_blocks(average) >= 0) by (nonlinear_arith);
    law_search_result(evm, timestamps);
    lemma_found_below(evm, timestamps);
    if bitcoin.state is Check {
        law_search_result(bitcoin, timestamps);
        lemma_found_below(bitcoin, timestamps);
    }
}

/// A search never goes up.
proof fn lemma_found_below(search: HeightSearch, timestamps: spec_fn(u64) -> u64)
    requires
        search.wf(),
        search.state is Check,
    ensures
        search.result(timestamps) <= search.state->Check_0,
    decreases search.remaining(),
{
    let height = search.state->Check_0;
    let next = search.observed(timestamps(height));
    assert(search.result(timestamps) == next.result(timestamps));
    if next.state is Check {
        lemma_found_below(next, timestamps);
    } else {
        assert(next.result(timestamps) == next.state->Found_0);
    }
}

} // verus!
