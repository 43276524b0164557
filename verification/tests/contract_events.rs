use alloy::primitives::Bytes;
use alloy::sol_types::SolValue;
use hypernode::error::HypernodeError;
use hypernode::event_listener::{
    release_reservation, EventListener, ExchangeEvent, ListenedEvent, ListenerAction, LogId,
    ReservationSync,
};
use hypernode::abi::{check_lengths, read_byte_strings};
use hypernode::evm_indexer::{
    check_block_hashes, collect_vaults, decode_block_hashes, header_heights, record_headers,
    split_vaults, vault_numbers,
};
use hypernode::id_set::IdSet;
use hypernode::releaser::{ReleaserQueue, ReleaserRequestInput};
use hypernode::store::{ActiveReservations, DepositVault, ReservationMetadata, SwapReservation};
use hypernode::u256::U256;

fn id(n: u64) -> U256 {
    U256::from_u64(n)
}

fn reservation(unlock: u64) -> ReservationMetadata {
    ReservationMetadata::new(
        SwapReservation {
            nonce: [1; 32],
            unlock_timestamp: 1,
            liquidity_unlocked_timestamp: unlock,
            vault_indexes: vec![id(7), U256 { l0: 0x5_0000_0003, l1: 1, l2: 0, l3: 0 }],
            expected_sats_output: Vec::new(),
        },
        Vec::new(),
    )
}

fn encoded(strings: Vec<Vec<u8>>) -> Vec<u8> {
    strings.into_iter().map(Bytes::from).collect::<Vec<Bytes>>().abi_encode()
}

fn log(n: u64) -> LogId {
    LogId { block_number: Some(n), transaction_index: Some(0), log_index: None }
}

#[test]
fn events_tell_which_reservations_are_open() {
    let sync = ReservationSync::of_events(&[
        ExchangeEvent::LiquidityReserved(id(1)),
        ExchangeEvent::LiquidityReserved(id(2)),
        ExchangeEvent::Other,
        ExchangeEvent::LiquidityReserved(id(3)),
        ExchangeEvent::ProofSubmitted(id(2)),
        ExchangeEvent::ProofSubmitted(id(3)),
        ExchangeEvent::SwapComplete(id(3)),
        ExchangeEvent::ProofSubmitted(id(4)),
        ExchangeEvent::LiquidityReserved(id(4)),
    ]);
    assert!(sync.active.contains(id(1)) && !sync.in_challenge.contains(id(1)));
    assert!(!sync.active.contains(id(2)) && sync.in_challenge.contains(id(2)));
    assert!(!sync.active.contains(id(3)) && !sync.in_challenge.contains(id(3)));
    assert!(sync.active.contains(id(4)) && sync.in_challenge.contains(id(4)));
    let mut ids: Vec<u64> = sync.to_download().iter().map(|id| id.low_u64()).collect();
    ids.sort();
    assert_eq!(ids, vec![1, 2, 4]);
}

#[test]
fn what_was_downloaded_is_watched_or_waits_for_its_release() {
    let sync = ReservationSync::of_events(&[
        ExchangeEvent::LiquidityReserved(id(1)),
        ExchangeEvent::ProofSubmitted(id(2)),
        ExchangeEvent::ProofSubmitted(id(4)),
        ExchangeEvent::LiquidityReserved(id(4)),
    ]);
    let mut store = ActiveReservations::new();
    let mut queue = ReleaserQueue::new();
    sync.settle(
        vec![(id(1), reservation(10)), (id(2), reservation(20)), (id(4), reservation(40))],
        &mut store,
        &mut queue,
    );
    assert!(store.get(id(1)).is_some());
    assert!(store.get(id(2)).is_none());
    assert!(store.get(id(4)).is_some());
    assert_eq!(
        queue.take_ready(100),
        vec![ReleaserRequestInput::new(id(2), 20), ReleaserRequestInput::new(id(4), 40)]
    );
}

#[test]
fn a_set_of_ids_holds_each_once() {
    let mut set = IdSet::new();
    set.insert(id(1));
    set.insert(id(1));
    set.insert(id(2));
    assert_eq!(set.union_ids(&IdSet::new()), vec![id(1), id(2)]);
    set.remove(id(1));
    assert!(!set.contains(id(1)) && set.contains(id(2)));
}

#[test]
fn a_log_is_handled_once() {
    let mut listener = EventListener::new();
    let mut store = ActiveReservations::new();
    store.insert(id(1), reservation(1));
    let made = ListenedEvent::LiquidityReserved(id(5));
    assert_eq!(
        listener.handle(log(1), made, 0, &mut store),
        ListenerAction::WatchReservation(id(5))
    );
    assert_eq!(listener.handle(log(1), made, 0, &mut store), ListenerAction::Nothing);
    let done = ListenedEvent::SwapComplete(id(1));
    assert_eq!(listener.handle(log(1), done, 0, &mut store), ListenerAction::Nothing);
    assert!(store.get(id(1)).is_some());
    assert_eq!(listener.handle(log(2), done, 0, &mut store), ListenerAction::Nothing);
    assert!(store.get(id(1)).is_none());
    let unplaced = LogId { block_number: None, transaction_index: Some(0), log_index: None };
    assert_eq!(
        listener.handle(unplaced, ListenedEvent::ProofSubmitted(id(6)), 0, &mut store),
        ListenerAction::ReleaseReservation(id(6))
    );
}

#[test]
fn an_event_drops_the_reservations_that_are_expired() {
    let mut listener = EventListener::new();
    let mut store = ActiveReservations::new();
    let mut late = reservation(1);
    late.reservation.unlock_timestamp = 50;
    store.insert(id(1), reservation(1));
    store.insert(id(2), late);
    let made = ListenedEvent::LiquidityReserved(id(5));
    assert_eq!(
        listener.handle(log(1), made, 1, &mut store),
        ListenerAction::WatchReservation(id(5))
    );
    assert_eq!(store.ids(), vec![id(1), id(2)]);
    // the same log once more changes nothing, whatever the time
    assert_eq!(listener.handle(log(1), made, 99, &mut store), ListenerAction::Nothing);
    assert_eq!(store.ids(), vec![id(1), id(2)]);
    listener.handle(log(2), made, 2, &mut store);
    assert_eq!(store.ids(), vec![id(2)]);
    listener.handle(log(3), ListenedEvent::BlocksAdded(id(1), id(1)), 51, &mut store);
    assert!(store.ids().is_empty());
}

#[test]
fn new_blocks_are_read_up_to_the_last() {
    let mut listener = EventListener::new();
    let mut store = ActiveReservations::new();
    assert_eq!(
        listener.handle(log(1), ListenedEvent::BlocksAdded(id(850_000), id(12)), 0, &mut store),
        ListenerAction::ReadHeaders(850_012, 12)
    );
    // the sum wraps around at the contract's width
    let most = U256 { l0: u64::MAX, l1: u64::MAX, l2: u64::MAX, l3: u64::MAX };
    assert_eq!(
        listener.handle(log(2), ListenedEvent::BlocksAdded(most, id(3)), 0, &mut store),
        ListenerAction::ReadHeaders(2, 3)
    );
}

#[test]
fn a_proven_reservation_is_watched_and_waits() {
    let mut store = ActiveReservations::new();
    let mut queue = ReleaserQueue::new();
    release_reservation(id(6), reservation(60), &mut store, &mut queue);
    release_reservation(id(6), reservation(70), &mut store, &mut queue);
    assert_eq!(
        store.get(id(6)).unwrap().reservation.liquidity_unlocked_timestamp,
        70
    );
    assert_eq!(queue.take_ready(1000), vec![ReleaserRequestInput::new(id(6), 60)]);
}

#[test]
fn a_release_is_taken_out_once_when_it_is_ready() {
    let mut queue = ReleaserQueue::new();
    assert!(queue.add(ReleaserRequestInput::new(id(1), 10)));
    assert!(queue.add(ReleaserRequestInput::new(id(2), 20)));
    assert!(queue.add(ReleaserRequestInput::new(id(3), 10)));
    assert!(!queue.add(ReleaserRequestInput::new(id(1), 99)));
    assert!(queue.take_ready(10).is_empty());
    assert_eq!(
        queue.take_ready(11),
        vec![ReleaserRequestInput::new(id(1), 10), ReleaserRequestInput::new(id(3), 10)]
    );
    assert!(queue.take_ready(11).is_empty());
    assert_eq!(queue.take_ready(21), vec![ReleaserRequestInput::new(id(2), 20)]);
}

#[test]
fn hashes_are_decoded_from_the_contracts_list() {
    let data = encoded(vec![vec![1; 32], vec![0; 32], vec![3; 32]]);
    assert!(check_block_hashes(&data));
    assert_eq!(decode_block_hashes(data), Ok(vec![[1; 32], [0; 32], [3; 32]]));
    assert_eq!(decode_block_hashes(encoded(Vec::new())), Ok(Vec::new()));
    assert!(!check_block_hashes(&encoded(vec![vec![1; 31]])));
    let cause = Vec::<Bytes>::abi_decode(&[1, 2, 3], false).unwrap_err().to_string();
    assert!(check_block_hashes(&[1, 2, 3]));
    assert_eq!(
        decode_block_hashes(vec![1, 2, 3]),
        Err(HypernodeError::Decode(format!("Failed to decode block hashes: {}", cause)))
    );
}

#[test]
fn a_length_that_cannot_be_is_found() {
    let mut data = encoded(vec![vec![1; 32]]);
    assert!(check_lengths(&data));
    // the length of the one string stands in the fourth word
    for i in 96..128 {
        data[i] = 0xff;
    }
    assert!(!check_lengths(&data));
    let overrun = "ABI decoding failed: buffer overrun while deserializing";
    assert_eq!(read_byte_strings(&data), Err(overrun.to_string()));
    assert!(check_block_hashes(&data));
    assert_eq!(
        decode_block_hashes(data.clone()),
        Err(HypernodeError::Decode(format!("Failed to decode block hashes: {}", overrun)))
    );
    assert_eq!(
        split_vaults(&data),
        Err(HypernodeError::Decode("Failed to decode vault byte array".to_string()))
    );
    assert!(check_lengths(&data[..96]));
    assert!(check_lengths(&[]));
}

#[test]
fn byte_strings_are_read_back_from_their_encoding() {
    let mut data: Vec<u8> = Vec::new();
    // where the list starts, how many strings it has, where each of them starts
    for number in [32u8, 2, 64, 128] {
        data.extend([0; 31]);
        data.push(number);
    }
    // the length of each string and its bytes, filled up with zeros
    data.extend([0; 31]);
    data.push(3);
    data.extend([7, 8, 9]);
    data.extend([0; 29]);
    data.extend([0; 31]);
    data.push(32);
    data.extend([5; 32]);
    assert_eq!(data, encoded(vec![vec![7, 8, 9], vec![5; 32]]));
    assert_eq!(read_byte_strings(&data), Ok(vec![vec![7, 8, 9], vec![5; 32]]));
    assert_eq!(read_byte_strings(&encoded(Vec::new())), Ok(Vec::new()));
    assert!(read_byte_strings(&data[..data.len() - 1]).is_err());
    assert!(read_byte_strings(&[]).is_err());
}

#[test]
fn vaults_are_split_and_collected() {
    let data = encoded(vec![vec![1, 2], Vec::new(), vec![9; 70]]);
    assert_eq!(split_vaults(&data), Ok(vec![vec![1, 2], Vec::new(), vec![9; 70]]));
    assert_eq!(
        split_vaults(&data[..data.len() - 96]),
        Err(HypernodeError::Decode("Failed to decode vault byte array".to_string()))
    );
    let vault = DepositVault { btc_payout_locking_script: [5; 22] };
    assert_eq!(collect_vaults(vec![Ok(vault), Ok(vault)]), Ok(vec![vault, vault]));
    assert_eq!(
        collect_vaults(vec![Ok(vault), Err("first".to_string()), Err("second".to_string())]),
        Err(HypernodeError::Decode("Failed to decode deposit vault: first".to_string()))
    );
}

#[test]
fn headers_are_read_from_the_tip_down() {
    assert_eq!(header_heights(850_000, Some(3)), vec![850_000, 849_999, 849_998]);
    assert_eq!(header_heights(2, Some(5)), vec![2, 1, 0]);
    assert_eq!(header_heights(9, Some(0)), Vec::<u64>::new());
    let default = header_heights(850_000, None);
    assert_eq!(default.len(), 200);
    assert_eq!(default[199], 849_801);
}

#[test]
fn hashes_of_zeros_are_not_kept() {
    let mut store = ActiveReservations::new();
    store.record_contract_hash(8, [8; 32]);
    record_headers(&[9, 8, 7], &[[1; 32], [0; 32], [2; 32]], &mut store);
    assert_eq!(store.contract_hash(9), Some(&[1; 32]));
    assert_eq!(store.contract_hash(8), Some(&[8; 32]));
    assert_eq!(store.contract_hash(7), Some(&[2; 32]));
    record_headers(&[7], &[[3; 32], [0; 32]], &mut store);
    assert_eq!(store.contract_hash(7), Some(&[3; 32]));
    assert_eq!(store.contract_heights(), vec![7, 8, 9]);
}

#[test]
fn vaults_are_asked_for_by_their_lowest_32_bits() {
    assert_eq!(vault_numbers(&reservation(1).reservation), vec![7, 3]);
}
