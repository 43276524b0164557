use hypernode::block::{Block, Transaction, TxOut};
use hypernode::btc_indexer::{
    analyze_block, analyze_block_for_payments, analyze_reservations_for_sufficient_confirmations,
    block_failed, block_hash_failed, build_rift_inscription, confirm_payment, decide_confirmation,
    plan_confirmation, ConfirmationPlan, ConfirmationStep, FoundPayment, PendingConfirmation,
};
use hypernode::error::HypernodeError;
use hypernode::proof_broadcast::{build_submission, has_paying_block};
use hypernode::proof_builder::{
    finish_transaction_proof, prepare_transaction_proof, ProofGenerationInput,
    TransactionProofInput,
};
use hypernode::store::{
    ActiveReservations, BitcoinReservationInProgress, DepositVault, ReservationMetadata,
    SwapReservation,
};
use hypernode::u256::U256;

fn id(n: u64) -> U256 {
    U256::from_u64(n)
}

fn reservation(nonce: u8, owed: Vec<(u8, u64)>) -> ReservationMetadata {
    ReservationMetadata::new(
        SwapReservation {
            nonce: [nonce; 32],
            unlock_timestamp: 1000,
            liquidity_unlocked_timestamp: 2000,
            vault_indexes: Vec::new(),
            expected_sats_output: owed.iter().map(|(_, sats)| *sats).collect(),
        },
        owed.iter()
            .map(|(script, _)| DepositVault { btc_payout_locking_script: [*script; 22] })
            .collect(),
    )
}

fn pay(script: u8, sats: u64) -> TxOut {
    TxOut { value: sats, script_pubkey: vec![script; 22] }
}

fn inscribe(nonce: u8) -> TxOut {
    TxOut { value: 0, script_pubkey: build_rift_inscription([nonce; 32]) }
}

fn tx(txid: u8, outputs: Vec<TxOut>) -> Transaction {
    Transaction { txid: [txid; 32], outputs }
}

fn block(hash: u8, transactions: Vec<Transaction>) -> Block {
    Block { block_hash: [hash; 32], merkle_root: [0; 32], time: 0, transactions, raw: Vec::new() }
}

#[test]
fn an_inscription_is_an_op_return_with_one_push() {
    let script = build_rift_inscription([7u8; 32]);
    assert_eq!(script.len(), 34);
    assert_eq!(script[..2].to_vec(), vec![0x6a, 0x20]);
    assert_eq!(script[2..].to_vec(), vec![7u8; 32]);
}

#[test]
fn a_payment_is_noted_with_its_block_and_transaction() {
    let mut store = ActiveReservations::new();
    store.insert(id(1), reservation(1, vec![(10, 500), (11, 600)]));
    store.insert(id(2), reservation(2, vec![(10, 500)]));
    let found = analyze_block_for_payments(
        100,
        &block(0xbb, vec![
            tx(1, vec![pay(10, 1)]),
            tx(2, vec![pay(11, 600), pay(10, 500), inscribe(1)]),
        ]),
        &mut store,
    );
    assert_eq!(found, vec![FoundPayment { reservation_id: id(1), txid: [2; 32] }]);
    assert_eq!(
        store.get(id(1)).unwrap().btc,
        Some(BitcoinReservationInProgress::new(100, [0xbb; 32], [2; 32]))
    );
    assert_eq!(store.get(id(2)).unwrap().btc, None);
    assert!(store.get(id(3)).is_none());
}

#[test]
fn outputs_that_do_not_match_are_no_payment() {
    let mut store = ActiveReservations::new();
    store.insert(id(1), reservation(1, vec![(10, 500), (10, 500)]));
    let short = block(1, vec![tx(1, vec![inscribe(1), pay(10, 500)])]);
    assert!(analyze_block_for_payments(5, &short, &mut store).is_empty());
    let other_sum = block(1, vec![tx(1, vec![inscribe(1), pay(10, 500), pay(10, 501)])]);
    assert!(analyze_block_for_payments(5, &other_sum, &mut store).is_empty());
    let uninscribed = block(1, vec![tx(1, vec![pay(10, 500), pay(10, 500)])]);
    assert!(analyze_block_for_payments(5, &uninscribed, &mut store).is_empty());
    assert_eq!(store.get(id(1)).unwrap().btc, None);
    let both = block(1, vec![tx(1, vec![pay(10, 500), inscribe(1), pay(10, 500), pay(9, 1)])]);
    assert_eq!(analyze_block_for_payments(5, &both, &mut store).len(), 1);
}

#[test]
fn the_last_payment_of_a_block_counts() {
    let mut store = ActiveReservations::new();
    store.insert(id(1), reservation(1, vec![(10, 5)]));
    let paid = block(3, vec![
        tx(1, vec![pay(10, 5), inscribe(1)]),
        tx(2, vec![pay(10, 5), inscribe(1)]),
        tx(3, vec![pay(10, 4), inscribe(1)]),
    ]);
    let found = analyze_block_for_payments(9, &paid, &mut store);
    assert_eq!(found, vec![FoundPayment { reservation_id: id(1), txid: [2; 32] }]);
    // the same block again changes nothing
    let before = store.get(id(1)).unwrap().clone();
    assert_eq!(analyze_block_for_payments(9, &paid, &mut store), found);
    assert_eq!(*store.get(id(1)).unwrap(), before);
}

#[test]
fn the_last_paying_block_counts() {
    let mut store = ActiveReservations::new();
    store.insert(id(1), reservation(1, vec![(10, 5)]));
    let blocks = vec![
        block(1, Vec::new()),
        block(2, vec![tx(1, vec![pay(10, 5), inscribe(1)])]),
        block(3, vec![tx(2, vec![inscribe(1), pay(10, 5)])]),
        block(4, vec![tx(3, vec![pay(10, 5)])]),
    ];
    for (i, block) in blocks.iter().enumerate() {
        analyze_block_for_payments(70 + i as u64, block, &mut store);
    }
    assert_eq!(
        store.get(id(1)).unwrap().btc,
        Some(BitcoinReservationInProgress::new(72, [3; 32], [2; 32]))
    );
}

#[test]
fn a_payment_is_followed_from_its_block_to_its_submission() {
    let mut store = ActiveReservations::new();
    store.record_contract_hash(48, [1; 32]);
    store.insert(id(1), reservation(1, vec![(10, 5)]));
    let paid = block(50, vec![tx(7, vec![pay(10, 5), inscribe(1)])]);
    analyze_block(0, 50, &paid, &mut store);
    let next = analyze_block(0, 51, &block(51, Vec::new()), &mut store);
    let plan = match next.confirmations[0].step {
        ConfirmationStep::Prove(plan) => plan,
        other => panic!("{:?}", other),
    };
    let blocks: Vec<Block> = (plan.safe_height..=plan.confirmation_height)
        .map(|height| block(height as u8, Vec::new()))
        .collect();
    let input = confirm_payment(
        id(1),
        plan,
        [51; 32],
        [9; 32],
        blocks,
        block(0, Vec::new()),
        &mut store,
    );
    let item = match input {
        ProofGenerationInput::Transaction(item) => item,
        other => panic!("{:?}", other),
    };
    let index = prepare_transaction_proof(item.reservation_id, &store).unwrap().proposed_block_index;
    assert_eq!(index, 2);
    finish_transaction_proof(item, vec![1, 2, 3], "0xaa", &mut store).unwrap();
    let submission = build_submission(id(1), Vec::new(), &store).unwrap();
    assert_eq!(submission.bitcoin_tx_id, [7; 32]);
    assert_eq!(submission.proposed_block_height, 50);
    assert_eq!(submission.confirmation_block_height, 51);
    assert_eq!(submission.safe_block_height, 48);
    assert_eq!(submission.block_hashes[index as usize], [50; 32]);
    assert_eq!(submission.solidity_proof, vec![1, 2, 3]);
}

#[test]
fn a_plan_takes_the_nearest_blocks_that_the_contract_knows() {
    assert_eq!(
        plan_confirmation(&[4000, 4100, 4200, 4300], 4200),
        ConfirmationPlan { safe_height: 4100, confirmation_height: 4300, retarget_height: 2016 * 2 }
    );
    assert_eq!(
        plan_confirmation(&[4000, 4100, 4201], 4200),
        ConfirmationPlan { safe_height: 4100, confirmation_height: 4201, retarget_height: 4032 }
    );
    // ahead of the contract the confirming block is the first that can be
    assert_eq!(
        plan_confirmation(&[10], 4200),
        ConfirmationPlan { safe_height: 10, confirmation_height: 4201, retarget_height: 0 }
    );
}

#[test]
fn a_payment_waits_until_it_is_confirmed() {
    assert_eq!(decide_confirmation(&[10], 100, 90), ConfirmationStep::Wait(11));
    assert_eq!(decide_confirmation(&[10], 100, 100), ConfirmationStep::Wait(1));
    assert_eq!(
        decide_confirmation(&[10], 100, 101),
        ConfirmationStep::Prove(ConfirmationPlan {
            safe_height: 10,
            confirmation_height: 101,
            retarget_height: 0
        })
    );
    assert_eq!(
        decide_confirmation(&[10], u64::MAX, 0),
        ConfirmationStep::Wait(0x1_0000_0000_0000_0000)
    );
    assert_eq!(decide_confirmation(&[10], u64::MAX, u64::MAX), ConfirmationStep::Wait(1));
    assert_eq!(decide_confirmation(&[], 100, 101), ConfirmationStep::NoSafeHeight);
    assert_eq!(decide_confirmation(&[100, 101], 100, 101), ConfirmationStep::NoSafeHeight);
}

#[test]
fn only_payments_that_wait_are_gone_through() {
    let mut store = ActiveReservations::new();
    store.record_contract_hash(98, [1; 32]);
    store.record_contract_hash(103, [2; 32]);
    store.insert(id(1), reservation(1, Vec::new()));
    store.insert(id(2), reservation(2, Vec::new()));
    store.update_btc_reservation(id(2), 100, [3; 32], [4; 32]);
    let plan = ConfirmationPlan {
        safe_height: 98,
        confirmation_height: 103,
        retarget_height: 0,
    };
    assert_eq!(
        analyze_reservations_for_sufficient_confirmations(101, &store),
        vec![PendingConfirmation { reservation_id: id(2), step: ConfirmationStep::Prove(plan) }]
    );
    let blocks: Vec<Block> = (98u8..=103).map(|h| block(h, Vec::new())).collect();
    let input = confirm_payment(
        id(2),
        plan,
        [101; 32],
        [9; 32],
        blocks.clone(),
        block(0, Vec::new()),
        &mut store,
    );
    assert_eq!(
        input,
        ProofGenerationInput::Transaction(TransactionProofInput { reservation_id: id(2) })
    );
    assert!(analyze_reservations_for_sufficient_confirmations(102, &store).is_empty());
    let metadata = store.get(id(2)).unwrap();
    assert!(has_paying_block(metadata));
    let btc = metadata.btc.unwrap();
    assert_eq!(btc.confirmation_height, Some(103));
    assert_eq!(btc.confirmation_block_hash, Some([101; 32]));
    assert_eq!(btc.txid, [4; 32]);
    let btc_final = metadata.btc_final.as_ref().unwrap();
    assert_eq!(btc_final.safe_block_height, 98);
    assert_eq!(btc_final.safe_block_chainwork, [9; 32]);
    assert_eq!(btc_final.blocks, blocks);
    assert_eq!(btc_final.retarget_block_height, 0);
}

#[test]
fn analyzing_a_block_drops_searches_and_decides() {
    let mut store = ActiveReservations::new();
    store.record_contract_hash(40, [1; 32]);
    store.insert(id(1), reservation(1, vec![(10, 5)]));
    let mut expired = reservation(2, vec![(10, 5)]);
    expired.reservation.unlock_timestamp = 998;
    store.insert(id(2), expired);
    let paid = block(3, vec![tx(1, vec![pay(10, 5), inscribe(1), inscribe(2)])]);
    let analysis = analyze_block(999, 50, &paid, &mut store);
    assert_eq!(
        analysis.payments,
        vec![FoundPayment { reservation_id: id(1), txid: [1; 32] }]
    );
    assert_eq!(
        analysis.confirmations,
        vec![PendingConfirmation { reservation_id: id(1), step: ConfirmationStep::Wait(1) }]
    );
    assert_eq!(store.ids(), vec![id(1)]);
    let next = analyze_block(1000, 51, &block(4, Vec::new()), &mut store);
    assert!(next.payments.is_empty());
    assert_eq!(
        next.confirmations[0].step,
        ConfirmationStep::Prove(ConfirmationPlan {
            safe_height: 40,
            confirmation_height: 51,
            retarget_height: 0
        })
    );
}

#[test]
fn a_run_of_blocks_leaves_what_was_never_expired() {
    let mut store = ActiveReservations::new();
    store.insert(id(1), reservation(1, vec![(10, 5)]));
    let mut short = reservation(2, vec![(10, 5)]);
    short.reservation.unlock_timestamp = 20;
    store.insert(id(2), short);
    let paid = block(3, vec![tx(1, vec![pay(10, 5), inscribe(1), inscribe(2)])]);
    let last = u64::MAX - 1;
    analyze_block(20, last, &paid, &mut store);
    assert_eq!(store.get(id(2)).unwrap().btc.unwrap().proposed_block_height, last);
    // the clock goes back, the reservation does not come back
    analyze_block(21, u64::MAX, &block(4, Vec::new()), &mut store);
    analyze_block(5, u64::MAX, &block(4, Vec::new()), &mut store);
    assert_eq!(store.ids(), vec![id(1)]);
    assert_eq!(store.get(id(1)).unwrap().btc.unwrap().proposed_block_height, last);
}

#[test]
fn reservations_expire_after_their_last_second() {
    let mut store = ActiveReservations::new();
    store.insert(id(1), reservation(1, Vec::new()));
    store.drop_expired_reservations(1000);
    assert_eq!(store.ids(), vec![id(1)]);
    store.drop_expired_reservations(1001);
    assert!(store.ids().is_empty());
    store.drop_expired_reservations(0);
    assert!(store.ids().is_empty());
}

#[test]
fn the_store_holds_one_reservation_for_each_id() {
    let mut store = ActiveReservations::new();
    let big = U256 { l0: 1, l1: 0, l2: 0, l3: 9 };
    store.insert(id(1), reservation(1, Vec::new()));
    store.insert(big, reservation(2, Vec::new()));
    store.insert(id(1), reservation(3, Vec::new()));
    assert_eq!(store.ids(), vec![id(1), big]);
    assert_eq!(store.get(id(1)).unwrap().reservation.nonce, [3; 32]);
    store.update_proof_data(big, vec![1, 2], vec![3]);
    assert_eq!(store.get(big).unwrap().proof, Some(vec![1, 2]));
    assert_eq!(store.get(big).unwrap().public_inputs, Some(vec![3]));
    store.remove(id(1));
    store.remove(id(1));
    assert_eq!(store.ids(), vec![big]);
}

#[test]
fn the_heights_of_the_contract_come_in_order() {
    let mut store = ActiveReservations::new();
    for height in [7u64, 3, u64::MAX, 5, 3] {
        store.record_contract_hash(height, [height as u8; 32]);
    }
    assert_eq!(store.contract_heights(), vec![3, 5, 7, u64::MAX]);
    assert_eq!(store.contract_hash(5), Some(&[5u8; 32]));
    assert_eq!(store.contract_hash(4), None);
}

#[test]
fn failed_downloads_say_which_block() {
    let cause = HypernodeError::BitcoinRpc("Invalid block hash".to_string());
    assert_eq!(
        block_hash_failed(859812, &cause),
        HypernodeError::RpcError(
            "Failed to get block hash for height 859812: Bitcoin RPC error: Invalid block hash"
                .to_string()
        )
    );
    assert_eq!(
        block_failed(&[0x0f; 32], &cause),
        HypernodeError::RpcError(format!(
            "Failed to get block for hash {}: Bitcoin RPC error: Invalid block hash",
            "0f".repeat(32)
        ))
    );
}
