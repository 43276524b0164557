use hypernode::block::Block;
use hypernode::error::HypernodeError;
use hypernode::node::{read_address, read_args, read_private_key, NodeSettings};
use hypernode::proof_broadcast::{
    build_submission, has_paying_block, ProofBroadcastInput, TransactionBroadcastInput,
};
use hypernode::proof_builder::{
    buffer_to_18_decimals, decode_public_inputs, finish_block_proof, finish_transaction_proof,
    prepare_transaction_proof, read_public_inputs, sats_to_wei, unbuffer_from_18_decimals,
    wei_to_sats, BlockProofInput, LiquidityReservation, TransactionProofInput,
};
use hypernode::store::{ActiveReservations, DepositVault, ReservationMetadata, SwapReservation};
use hypernode::text::{decimal_u64, join_with_colon};
use hypernode::u256::U256;
use hypernode::HypernodeArgs;

const MOST: U256 = U256 { l0: u64::MAX, l1: u64::MAX, l2: u64::MAX, l3: u64::MAX };

fn id(n: u64) -> U256 {
    U256::from_u64(n)
}

fn block(n: u8) -> Block {
    let mut block_hash = [n; 32];
    block_hash[0] = 0xee;
    let mut merkle_root = [n; 32];
    merkle_root[31] = 0xdd;
    Block { block_hash, merkle_root, time: 0, transactions: Vec::new(), raw: vec![n] }
}

fn reservation() -> ReservationMetadata {
    ReservationMetadata::new(
        SwapReservation {
            nonce: [6; 32],
            unlock_timestamp: 1,
            liquidity_unlocked_timestamp: 2,
            vault_indexes: Vec::new(),
            expected_sats_output: vec![100, 200, 300],
        },
        vec![
            DepositVault { btc_payout_locking_script: [1; 22] },
            DepositVault { btc_payout_locking_script: [2; 22] },
        ],
    )
}

fn txid() -> [u8; 32] {
    let mut txid = [0; 32];
    txid[0] = 0xaa;
    txid
}

fn confirmed(id: U256) -> ActiveReservations {
    let mut store = ActiveReservations::new();
    store.insert(id, reservation());
    store.update_btc_reservation(id, 0x2_0000_0011, [9; 32], txid());
    store.update_btc_reservation_final(
        id,
        0x2_0000_0012,
        [8; 32],
        0x2_0000_0010,
        [7; 32],
        vec![block(0), block(1), block(2)],
        block(5),
        0x2_0000_0000,
    );
    store
}

fn args() -> HypernodeArgs {
    HypernodeArgs {
        evm_ws_rpc: "ws://localhost".to_string(),
        btc_rpc: "http://localhost".to_string(),
        private_key: format!("0x{}", "11".repeat(32)),
        rift_exchange_address: "0xaAbB000000000000000000000000000000000001".to_string(),
        rpc_concurrency: 10,
        btc_polling_interval: 30,
        mock_proof: false,
        flashbots: false,
        flashbots_relay_rpc: Some("https://relay".to_string()),
        proof_gen_concurrency: 1,
        evm_block_time: 12,
        btc_block_time: 600,
    }
}

#[test]
fn amounts_are_counted_in_units_of_18_decimals() {
    assert_eq!(buffer_to_18_decimals(id(5), 6), id(5_000_000_000_000));
    assert_eq!(buffer_to_18_decimals(id(5), 17), id(50));
    assert_eq!(buffer_to_18_decimals(id(5), 18), id(5));
    assert_eq!(buffer_to_18_decimals(id(5), 255), id(5));
    assert_eq!(buffer_to_18_decimals(id(2), 0), id(2_000_000_000_000_000_000));
    // (2^256 - 1) * 10 wraps around to 2^256 - 10
    let wrapped = U256 { l0: u64::MAX - 9, l1: u64::MAX, l2: u64::MAX, l3: u64::MAX };
    assert_eq!(buffer_to_18_decimals(MOST, 17), wrapped);
    assert_eq!(unbuffer_from_18_decimals(id(5_999_999_999_999), 6), id(5));
    assert_eq!(unbuffer_from_18_decimals(id(7), 18), id(7));
    let amount = U256 { l0: 123, l1: 456, l2: 0, l3: 0 };
    assert_eq!(unbuffer_from_18_decimals(buffer_to_18_decimals(amount, 8), 8), amount);
}

#[test]
fn satoshis_and_wei_are_turned_into_each_other() {
    assert_eq!(sats_to_wei(id(21), id(1000)), id(21_000));
    assert_eq!(wei_to_sats(id(21_999), id(1000)), id(21));
    assert_eq!(sats_to_wei(MOST, id(2)).low_u64(), u64::MAX - 1);
    assert_eq!(wei_to_sats(sats_to_wei(id(77), MOST), MOST).low_u64(), 0);
    assert_eq!(wei_to_sats(sats_to_wei(id(77), id(3)), id(3)), id(77));
}

#[test]
fn low_bits_of_a_wide_number() {
    let wide = U256 { l0: 0x1_0000_0002, l1: 3, l2: 4, l3: 5 };
    assert_eq!(wide.low_u64(), 0x1_0000_0002);
    assert_eq!(wide.low_u32(), 2);
    assert_eq!(wide.low_usize() as u64, 0x1_0000_0002);
}

#[test]
fn numbers_are_written_in_decimal() {
    assert_eq!(decimal_u64(0), "0");
    assert_eq!(decimal_u64(9), "9");
    assert_eq!(decimal_u64(10), "10");
    assert_eq!(decimal_u64(u64::MAX), "18446744073709551615");
    assert_eq!(join_with_colon("a", "b"), "a: b");
}

#[test]
fn a_proof_is_made_from_a_confirmed_payment() {
    let store = confirmed(id(3));
    let arguments = prepare_transaction_proof(id(3), &store).unwrap();
    assert_eq!(arguments.order_nonce, [6; 32]);
    assert_eq!(
        arguments.liquidity_reservations,
        vec![
            LiquidityReservation { expected_sats: 100, script_pub_key: [1; 22] },
            LiquidityReservation { expected_sats: 200, script_pub_key: [2; 22] },
        ]
    );
    assert_eq!(arguments.proposed_block_index, 1);
    assert_eq!(arguments.proposed_txid[31], 0xaa);
    assert_eq!(arguments.btc_final.blocks.len(), 3);
    assert_eq!(arguments.btc_final.safe_block_chainwork, [7; 32]);
}

#[test]
fn a_proof_needs_a_confirmed_payment() {
    let mut store = ActiveReservations::new();
    assert_eq!(
        prepare_transaction_proof(MOST, &store).err(),
        Some(HypernodeError::Store(
            "Reservation not found: 115792089237316195423570985008687907853269984665640564039457\
             584007913129639935"
                .to_string()
        ))
    );
    store.insert(id(3), reservation());
    assert_eq!(
        prepare_transaction_proof(id(3), &store).err(),
        Some(HypernodeError::ProofGeneration("BTC final data not found".to_string()))
    );
    let mut unseen = ActiveReservations::new();
    let mut metadata = confirmed(id(3)).get(id(3)).unwrap().clone();
    metadata.btc = None;
    unseen.insert(id(3), metadata);
    assert_eq!(
        prepare_transaction_proof(id(3), &unseen).err(),
        Some(HypernodeError::ProofGeneration("BTC initial data not found".to_string()))
    );
}

#[test]
fn public_inputs_are_decoded_from_their_text() {
    assert_eq!(decode_public_inputs("0x0x00fF"), Ok(vec![0, 255]));
    assert_eq!(decode_public_inputs(""), Ok(Vec::new()));
    let odd = hex::decode("abc").unwrap_err().to_string();
    assert_eq!(
        decode_public_inputs("0xabc"),
        Err(HypernodeError::ProofGeneration(format!("Failed to decode public inputs: {}", odd)))
    );
    assert_eq!(read_public_inputs(Ok(vec![1])), Ok(vec![1]));
    assert_eq!(
        read_public_inputs(Err("why".to_string())),
        Err(HypernodeError::ProofGeneration("Failed to decode public inputs: why".to_string()))
    );
}

#[test]
fn a_proof_is_kept_and_submitted() {
    let mut store = confirmed(id(3));
    let item = TransactionProofInput { reservation_id: id(3) };
    assert!(finish_transaction_proof(item, vec![4], "0xzz", &mut store).is_err());
    assert_eq!(store.get(id(3)).unwrap().proof, None);
    assert_eq!(
        finish_transaction_proof(item, vec![4, 5], "0x0102", &mut store),
        Ok(ProofBroadcastInput::Transaction(TransactionBroadcastInput { reservation_id: id(3) }))
    );
    assert_eq!(store.get(id(3)).unwrap().public_inputs, Some(vec![1, 2]));
    assert!(has_paying_block(store.get(id(3)).unwrap()));
    let arguments = build_submission(id(3), vec![id(1), id(2), id(3)], &store).unwrap();
    assert_eq!(arguments.reservation_id, id(3));
    assert_eq!(arguments.bitcoin_tx_id[31], 0xaa);
    assert_eq!(arguments.merkle_root[0], 0xdd);
    assert_eq!(arguments.merkle_root[1], 1);
    assert_eq!(arguments.safe_block_height, 0x10);
    assert_eq!(arguments.proposed_block_height, 0x2_0000_0011);
    assert_eq!(arguments.confirmation_block_height, 0x2_0000_0012);
    assert_eq!(arguments.block_hashes.len(), 3);
    assert_eq!(arguments.block_hashes[2][0], 2);
    assert_eq!(arguments.block_hashes[2][31], 0xee);
    assert_eq!(arguments.block_chainworks, vec![id(1), id(2), id(3)]);
    assert_eq!(arguments.solidity_proof, vec![4, 5]);
}

#[test]
fn a_submission_needs_a_proof() {
    let mut store = ActiveReservations::new();
    assert_eq!(
        build_submission(id(12), Vec::new(), &store),
        Err(HypernodeError::Store("Reservation not found: 12".to_string()))
    );
    store.insert(id(12), reservation());
    assert_eq!(
        build_submission(id(12), Vec::new(), &store),
        Err(HypernodeError::ProofBroadcast("Proof not found for reservation: 12".to_string()))
    );
    store.update_proof_data(id(12), vec![1], vec![2]);
    assert_eq!(
        build_submission(id(12), Vec::new(), &store),
        Err(HypernodeError::ProofBroadcast("BTC initial not found for reservation: 12".to_string()))
    );
    store.update_btc_reservation(id(12), 5, [0; 32], [0; 32]);
    assert_eq!(
        build_submission(id(12), Vec::new(), &store),
        Err(HypernodeError::ProofBroadcast("BTC final not found for reservation: 12".to_string()))
    );
}

#[test]
fn a_payment_that_was_seen_again_has_no_block_in_the_proof() {
    let mut store = confirmed(id(3));
    store.update_btc_reservation(id(3), 0x2_0000_0013, [9; 32], txid());
    assert!(!has_paying_block(store.get(id(3)).unwrap()));
    store.update_btc_reservation(id(3), 4, [9; 32], txid());
    assert!(!has_paying_block(store.get(id(3)).unwrap()));
}

#[test]
fn a_missing_proof_is_reported_before_any_block_is_read() {
    let mut store = confirmed(id(3));
    store.update_btc_reservation(id(3), 4, [9; 32], txid());
    assert!(!has_paying_block(store.get(id(3)).unwrap()));
    assert_eq!(
        build_submission(id(3), Vec::new(), &store),
        Err(HypernodeError::ProofBroadcast("Proof not found for reservation: 3".to_string()))
    );
}

#[test]
fn a_block_proof_is_handed_on() {
    let input = BlockProofInput {
        safe_chainwork: id(1),
        safe_block_height: 2,
        blocks: vec![block(1)],
        retarget_block: block(2),
        retarget_block_height: 3,
    };
    match finish_block_proof(input.clone(), vec![9], "0x07") {
        Ok(ProofBroadcastInput::Block(broadcast)) => {
            assert_eq!(broadcast.safe_chainwork, id(1));
            assert_eq!(broadcast.safe_block_height, 2);
            assert_eq!(broadcast.blocks, vec![block(1)]);
            assert_eq!(broadcast.retarget_block, block(2));
            assert_eq!(broadcast.retarget_block_height, 3);
            assert_eq!(broadcast.solidity_proof, vec![9]);
            assert_eq!(broadcast.public_inputs, vec![7]);
        }
        other => panic!("{:?}", other),
    }
    assert!(finish_block_proof(input, vec![9], "7").is_err());
}

#[test]
fn arguments_are_read() {
    let mut address = [0u8; 20];
    address[0] = 0xaa;
    address[1] = 0xbb;
    address[19] = 1;
    assert_eq!(
        read_args(&args()),
        Ok(NodeSettings {
            rift_exchange_address: address,
            flashbots_url: None,
            private_key: [0x11; 32],
        })
    );
    let mut relayed = args();
    relayed.flashbots = true;
    relayed.private_key = "22".repeat(40);
    relayed.rift_exchange_address = "AABB000000000000000000000000000000000001".to_string();
    assert_eq!(
        read_args(&relayed),
        Ok(NodeSettings {
            rift_exchange_address: address,
            flashbots_url: Some("https://relay".to_string()),
            private_key: [0x22; 32],
        })
    );
}

#[test]
fn arguments_that_are_wrong_are_refused_in_order() {
    let mut wrong = args();
    wrong.rift_exchange_address = "0x12".to_string();
    wrong.flashbots = true;
    wrong.flashbots_relay_rpc = None;
    wrong.private_key = "0x1".to_string();
    assert_eq!(
        read_args(&wrong),
        Err(HypernodeError::Parse(
            "Failed to parse Rift exchange address: invalid string length".to_string()
        ))
    );
    wrong.rift_exchange_address = args().rift_exchange_address;
    assert_eq!(
        read_args(&wrong),
        Err(HypernodeError::Config(
            "Flashbots relay URL is required when flashbots is enabled".to_string()
        ))
    );
    wrong.flashbots = false;
    let odd = hex::decode("1").unwrap_err().to_string();
    assert_eq!(
        read_args(&wrong),
        Err(HypernodeError::Parse(format!("Failed to decode private key: {}", odd)))
    );
    wrong.private_key = "11".repeat(31);
    assert_eq!(
        read_args(&wrong),
        Err(HypernodeError::Parse("Invalid private key length".to_string()))
    );
}

#[test]
fn what_parsing_gave_is_passed_on() {
    assert_eq!(read_address(Ok([1; 20])), Ok([1; 20]));
    assert_eq!(
        read_address(Err("why".to_string())),
        Err(HypernodeError::Parse("Failed to parse Rift exchange address: why".to_string()))
    );
    assert_eq!(read_private_key(Ok((0u8..33).collect())).unwrap()[31], 31);
    assert_eq!(
        read_private_key(Err("why".to_string())),
        Err(HypernodeError::Parse("Failed to decode private key: why".to_string()))
    );
}
