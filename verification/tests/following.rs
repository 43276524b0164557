use hypernode::block::Block;
use hypernode::block_listener::{sort_by_height, BlockListener, ListenerStep, PollOutcome};
use hypernode::search::{Chain, HeightSearch, SearchState};
use hypernode::store::{ActiveReservations, ReservationMetadata, SwapReservation};
use hypernode::u256::U256;

fn block(hash: u8) -> Block {
    Block {
        block_hash: [hash; 32],
        merkle_root: [0; 32],
        time: 0,
        transactions: Vec::new(),
        raw: Vec::new(),
    }
}

fn run(mut search: HeightSearch, timestamp_of: fn(u64) -> u64) -> (u64, Vec<u64>) {
    let mut looked_at = Vec::new();
    for _ in 0..1000 {
        match search.state {
            SearchState::Found(height) => return (height, looked_at),
            SearchState::Check(height) => {
                looked_at.push(height);
                search.observe(timestamp_of(height));
            }
        }
    }
    panic!("the search does not end");
}

#[test]
fn every_block_from_the_start_is_analyzed_once() {
    let mut listener = BlockListener::new(5, 7);
    let mut analyzed: Vec<u64> = Vec::new();
    let mut tips = vec![9u64, 9, 8, 10];
    tips.reverse();
    loop {
        match listener.next_step() {
            ListenerStep::Download(from, to) => {
                for height in from..=to {
                    listener.analyzed(height);
                    analyzed.push(height);
                }
            }
            ListenerStep::Poll => match tips.pop() {
                Some(tip) => {
                    listener.poll(tip);
                }
                None => break,
            },
        }
    }
    assert_eq!(analyzed, vec![5, 6, 7, 8, 9, 10]);
}

#[test]
fn the_first_block_of_the_chain_is_analyzed_too() {
    let listener = BlockListener::new(0, 2);
    assert_eq!(listener.next_step(), ListenerStep::Download(0, 2));
    assert_eq!(BlockListener::new(0, 0).next_step(), ListenerStep::Download(0, 0));
    assert_eq!(BlockListener::new(3, 2).next_step(), ListenerStep::Poll);
    let mut last = BlockListener::new(u64::MAX, u64::MAX);
    last.analyzed(u64::MAX);
    assert_eq!(last.next_step(), ListenerStep::Poll);
}

#[test]
fn being_synced_is_said_once() {
    let mut listener = BlockListener::new(1, 1);
    listener.analyzed(1);
    assert_eq!(listener.poll(1), PollOutcome::FullySynced);
    assert_eq!(listener.poll(0), PollOutcome::StillSynced);
    assert_eq!(listener.poll(2), PollOutcome::NewTip(2));
    listener.analyzed(2);
    assert_eq!(listener.poll(2), PollOutcome::FullySynced);
}

#[test]
fn downloads_are_put_in_order() {
    let sorted = sort_by_height(vec![(9, block(1)), (7, block(2)), (8, block(3)), (6, block(4))]);
    let heights: Vec<u64> = sorted.iter().map(|(height, _)| *height).collect();
    let hashes: Vec<u8> = sorted.iter().map(|(_, block)| block.block_hash[0]).collect();
    assert_eq!(heights, vec![6, 7, 8, 9]);
    assert_eq!(hashes, vec![4, 2, 3, 1]);
    assert!(sort_by_height(Vec::new()).is_empty());
}

#[test]
fn a_bitcoin_search_steps_back_by_the_hour() {
    let search = HeightSearch::bitcoin(1000, 1_000_000, 8, 600);
    assert_eq!(search.target_timestamp, 1_000_000 - 28_800);
    assert_eq!(search.blocks_per_hour, 6);
    assert_eq!(search.state, SearchState::Check(952));
    // blocks came twice as slowly: 48 blocks are already older
    assert_eq!(run(search, |h| 1_000_000 - (1000 - h) * 1200), (952, vec![952]));
    // blocks came twice as fast: 96 blocks are needed
    let (found, looked_at) = run(search, |h| 1_000_000 - (1000 - h) * 300);
    assert_eq!(found, 904);
    assert_eq!(looked_at, vec![952, 946, 940, 934, 928, 922, 916, 910, 904]);
}

#[test]
fn a_bitcoin_search_ends_at_the_first_block_without_looking_at_it() {
    assert_eq!(HeightSearch::bitcoin(48, 1_000_000, 8, 600).state, SearchState::Found(0));
    assert_eq!(
        run(HeightSearch::bitcoin(55, 1_000_000, 8, 600), |_| 1_000_000),
        (0, vec![7, 1])
    );
}

#[test]
fn a_search_on_a_slow_chain_steps_back_block_by_block() {
    let bitcoin = HeightSearch::bitcoin(100, 1_050_000, 1, 7200);
    assert_eq!(bitcoin.blocks_per_hour, 1);
    assert_eq!(bitcoin.target_timestamp, 1_046_400);
    assert_eq!(bitcoin.state, SearchState::Check(100));
    let (found, looked_at) = run(bitcoin, |h| 1_000_000 + 500 * h);
    assert_eq!(found, 92);
    assert_eq!(looked_at, (92..=100).rev().collect::<Vec<u64>>());
    let (first, looked_at) = run(bitcoin, |_| 1_050_000);
    assert_eq!(first, 0);
    assert_eq!(looked_at, (1..=100).rev().collect::<Vec<u64>>());

    let evm = HeightSearch::evm(100, 1_050_000, 1, 7200);
    assert_eq!(evm.blocks_per_hour, 1);
    assert_eq!(run(evm, |h| 1_000_000 + 500 * h).0, 92);
    assert_eq!(run(evm, |_| 1_050_000).1.len(), 101);
    assert_eq!(HeightSearch::evm(100, 1_050_000, 1, 3600).blocks_per_hour, 1);
    assert_eq!(HeightSearch::evm(100, 1_050_000, 1, 1800).blocks_per_hour, 2);
}

#[test]
fn a_bitcoin_search_reaches_back_to_before_the_oldest_reservation() {
    let mut search = HeightSearch::bitcoin(1000, 1_000_000, 8, 600);
    let begun = search;
    search.reach_back(&[]);
    assert_eq!(search, begun);
    // from so long after the target that the hours before the tip are enough
    search.reach_back(&[999_000, 974_800]);
    assert_eq!(search, begun);
    search.reach_back(&[974_799, 960_000, 972_000]);
    assert_eq!(search.target_timestamp, 956_400);
    assert_eq!(search.state, begun.state);
    // block 927 is from 956 200, an hour and some minutes before the oldest reservation
    let (found, _) = run(search, |h| 1_000_000 - (1000 - h) * 600);
    assert_eq!(found, 922);
    assert_eq!(run(begun, |h| 1_000_000 - (1000 - h) * 600).0, 952);
    search.reach_back(&[10]);
    assert_eq!(search.target_timestamp, 0);
    assert_eq!(run(search, |h| 1_000_000 - (1000 - h) * 600).0, 0);
}

#[test]
fn the_times_of_the_reservations_are_known_from_when_they_expire() {
    let mut store = ActiveReservations::new();
    assert!(store.reservation_times().is_empty());
    for (n, unlock_timestamp) in [(1u64, 1_000_000u64), (2, 28_801), (3, 100)] {
        let reservation = SwapReservation {
            nonce: [1; 32],
            unlock_timestamp,
            liquidity_unlocked_timestamp: 0,
            vault_indexes: Vec::new(),
            expected_sats_output: Vec::new(),
        };
        store.insert(U256::from_u64(n), ReservationMetadata::new(reservation, Vec::new()));
    }
    let mut times = store.reservation_times();
    times.sort();
    assert_eq!(times, vec![0, 1, 971_200]);
    store.drop_expired_reservations(28_802);
    assert_eq!(store.reservation_times(), vec![971_200]);
}

#[test]
fn an_evm_search_looks_at_the_first_block_too() {
    let search = HeightSearch::evm(2405, 100_000, 8, 12);
    assert_eq!(search.chain, Chain::Evm);
    assert_eq!(search.target_timestamp, 100_000 - 28_800);
    assert_eq!(search.blocks_per_hour, 300);
    assert_eq!(search.state, SearchState::Check(5));
    assert_eq!(run(search, |_| 100_000), (0, vec![5, 0]));
    assert_eq!(run(search, |h| 71_195 + h), (5, vec![5]));
    // a chain younger than the hours has no time before its first second
    assert_eq!(HeightSearch::evm(10, 60, 8, 12).target_timestamp, 0);
}
