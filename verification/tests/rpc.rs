use hypernode::block::Block;
use hypernode::btc_rpc::{
    block_count_reply, block_hash_reply, block_reply, chainwork_reply, check_reply, decoded_block,
    read_block_count, read_block_hash, read_reply, receive, JsonNode, RawReply, RpcCall, RpcParam,
    RpcReply, RpcResult,
};
use hypernode::bytes::{exactly_32, first_32, same_bytes, to_little_endian, trim_hex_marks};
use hypernode::error::HypernodeError;

const WORK: &str = "000000000000000000000000000000000000000086ec5e1f3b3f5d1c0a3b2c1d";

fn reply(body: &str) -> RawReply<'_> {
    RawReply { params: "Array []", status: "200 OK", body }
}

fn refused(text: &str) -> HypernodeError {
    HypernodeError::BitcoinRpc(text.to_string())
}

fn result_body(value: &str) -> String {
    format!("{{\"result\":{},\"error\":null,\"id\":1}}", value)
}

fn genesis() -> (bitcoin::Block, String) {
    let block = bitcoin::constants::genesis_block(bitcoin::Network::Bitcoin);
    let raw = hex::encode(bitcoin::consensus::serialize(&block));
    (block, raw)
}

#[test]
fn calls_name_their_method_and_parameters() {
    let hash = [0xabu8; 32];
    let count = RpcCall::block_count();
    assert_eq!(count.method, "getblockcount");
    assert!(count.params.is_empty());
    let by_height = RpcCall::block_hash(859812);
    assert_eq!(by_height.method, "getblockhash");
    assert_eq!(by_height.params, vec![RpcParam::Number(859812)]);
    let block = RpcCall::block(&hash);
    assert_eq!(block.method, "getblock");
    assert_eq!(
        block.params,
        vec![RpcParam::Text("ab".repeat(32)), RpcParam::Number(0)]
    );
    let header = RpcCall::block_header(&hash);
    assert_eq!(header.method, "getblockheader");
    assert_eq!(header.params, vec![RpcParam::Text("ab".repeat(32))]);
}

#[test]
fn a_reply_that_is_no_json_is_refused() {
    let cause = serde_json::from_str::<serde_json::Value>("<html>").unwrap_err().to_string();
    assert_eq!(
        block_count_reply(RawReply { params: "P", status: "502 Bad Gateway", body: "<html>" }),
        Err(refused(&format!(
            "Failed to parse JSON. Method: getblockcount, Params: P, Status: 502 Bad Gateway, \
             Body: <html>, Error: {}",
            cause
        )))
    );
}

#[test]
fn a_reply_that_reports_an_error_is_refused() {
    let body = "{\"result\":5,\"error\":{\"code\":-8},\"id\":1}";
    assert_eq!(
        receive("getblockhash", "Q", "500 Internal Server Error", body),
        Err(refused(&format!(
            "RPC error. Method: getblockhash, Params: Q, Status: 500 Internal Server Error, \
             Body: {}",
            body
        )))
    );
}

#[test]
fn a_reply_without_a_result_is_refused() {
    let body = "{\"id\":1}";
    assert_eq!(
        receive("getblock", "R", "200 OK", body),
        Err(refused(
            "No 'result' in response. Method: getblock, Params: R, Status: 200 OK, \
             Body: {\"id\":1}"
        ))
    );
    assert!(receive("getblock", "R", "200 OK", "[1, 2]").is_err());
    assert!(receive("getblock", "R", "200 OK", "{\"result\":null}").is_ok());
}

#[test]
fn a_checked_reply_gives_its_result() {
    let read = read_reply("{\"result\":{\"chainwork\":\"ff\"},\"error\":null}").unwrap();
    assert_eq!(
        read,
        RpcReply {
            error: Some(JsonNode::Null),
            result: Some(JsonNode::Object),
            chainwork: Some(JsonNode::Text("ff".to_string())),
        }
    );
    assert_eq!(
        check_reply(Ok(read), "m", "p", "s", "b"),
        Ok(RpcResult {
            value: JsonNode::Object,
            chainwork: Some(JsonNode::Text("ff".to_string())),
        })
    );
    assert_eq!(
        check_reply(Err("bad".to_string()), "m", "p", "s", "b"),
        Err(refused(
            "Failed to parse JSON. Method: m, Params: p, Status: s, Body: b, Error: bad"
        ))
    );
}

#[test]
fn the_block_count_is_a_number() {
    assert_eq!(block_count_reply(reply(&result_body("859812"))), Ok(859812));
    let invalid = Err(refused("Invalid block count"));
    assert_eq!(block_count_reply(reply(&result_body("-1"))), invalid);
    assert_eq!(block_count_reply(reply(&result_body("1.5"))), invalid);
    assert_eq!(block_count_reply(reply(&result_body("\"859812\""))), invalid);
    assert_eq!(block_count_reply(reply(&result_body("true"))), invalid);
    assert_eq!(
        read_block_count(&RpcResult { value: JsonNode::Number(None), chainwork: None }),
        invalid
    );
}

#[test]
fn a_block_hash_is_32_bytes_in_digits() {
    let digits = "00000000000000000001b2505c11119fcf29be733ec379f686518bf1090a522a";
    let hash = block_hash_reply(reply(&result_body(&format!("\"{}\"", digits)))).unwrap();
    assert_eq!(hash.len(), 32);
    assert_eq!(hash.to_vec(), hex::decode(digits).unwrap());
    let invalid = Err(refused("Invalid block hash"));
    assert_eq!(block_hash_reply(reply(&result_body("\"00\""))), invalid);
    assert_eq!(block_hash_reply(reply(&result_body("\"zz\""))), invalid);
    assert_eq!(
        block_hash_reply(reply(&result_body("12"))),
        Err(refused("Block hash doesn't exist"))
    );
    assert_eq!(
        read_block_hash(&RpcResult { value: JsonNode::Array, chainwork: None }),
        Err(refused("Block hash doesn't exist"))
    );
}

#[test]
fn a_hash_is_asked_for_as_it_was_given() {
    let hash = exactly_32(&(100u8..132).collect::<Vec<u8>>()).unwrap();
    let written = match &RpcCall::block(&hash).params[0] {
        RpcParam::Text(text) => text.clone(),
        other => panic!("{:?}", other),
    };
    assert_eq!(block_hash_reply(reply(&result_body(&format!("\"{}\"", written)))), Ok(hash));
}

#[test]
fn a_block_is_read_from_its_bytes() {
    let (expected, raw) = genesis();
    let block = block_reply(reply(&result_body(&format!("\"{}\"", raw)))).unwrap();
    assert_eq!(block.block_hash, bitcoin::hashes::Hash::to_byte_array(expected.block_hash()));
    assert_eq!(block.merkle_root, bitcoin::hashes::Hash::to_byte_array(expected.header.merkle_root));
    assert_eq!(block.time, 1231006505);
    assert_eq!(block.raw, hex::decode(&raw).unwrap());
    assert_eq!(block.transactions.len(), 1);
    assert_eq!(block.transactions[0].txid, bitcoin::hashes::Hash::to_byte_array(expected.txdata[0].compute_txid()));
    assert_eq!(block.transactions[0].outputs.len(), 1);
    assert_eq!(block.transactions[0].outputs[0].value, 5_000_000_000);
    assert_eq!(
        block.transactions[0].outputs[0].script_pubkey,
        expected.txdata[0].output[0].script_pubkey.to_bytes()
    );
    // the hash as the node shows it is the other way round
    let shown = hex::decode("000000000019d6689c085ae165831e934ff763ae46a2a6c172b3f1b60a8ce26f");
    assert_eq!(to_little_endian(&block.block_hash).to_vec(), shown.unwrap());
}

#[test]
fn what_is_no_block_is_refused() {
    let (_, raw) = genesis();
    assert_eq!(
        block_reply(reply(&result_body("{}"))),
        Err(refused("Block doesn't exist"))
    );
    assert_eq!(
        block_reply(reply(&result_body("\"abc\""))),
        Err(refused("Invalid block data"))
    );
    let failed: Result<Block, HypernodeError> = Err(refused("Failed to deserialize block"));
    assert_eq!(block_reply(reply(&result_body("\"abcd\""))), failed);
    assert_eq!(block_reply(reply(&result_body(&format!("\"{}00\"", raw)))), failed);
    assert_eq!(decoded_block(None), failed);
}

#[test]
fn the_chainwork_is_32_bytes_in_digits() {
    let work = chainwork_reply(reply(&result_body(&format!(
        "{{\"height\":859812,\"chainwork\":\"{}\"}}",
        WORK
    ))))
    .unwrap();
    assert_eq!(work.len(), 32);
    assert_eq!(work.to_vec(), hex::decode(WORK).unwrap());
    assert_eq!(
        chainwork_reply(reply(&result_body("{\"height\":1}"))),
        Err(refused("Chainwork doesn't exist"))
    );
    assert_eq!(
        chainwork_reply(reply(&result_body("{\"chainwork\":7}"))),
        Err(refused("Chainwork doesn't exist"))
    );
    assert_eq!(
        chainwork_reply(reply(&result_body("{\"chainwork\":\"0f\"}"))),
        Err(refused("Invalid chainwork data"))
    );
}

#[test]
fn bytes_of_fixed_lengths() {
    let data: Vec<u8> = (0u8..40).collect();
    assert_eq!(first_32(&data).unwrap().to_vec(), data[..32].to_vec());
    assert_eq!(first_32(&data[..31]), None);
    assert_eq!(exactly_32(&data), None);
    assert_eq!(exactly_32(&data[8..]).unwrap().to_vec(), data[8..].to_vec());
    assert!(same_bytes(&data, &data));
    assert!(!same_bytes(&data, &data[1..]));
    assert!(!same_bytes(&[1, 2], &[1, 3]));
}

#[test]
fn turning_bytes_around_twice_gives_them_back() {
    let data = exactly_32(&(0u8..32).collect::<Vec<u8>>()).unwrap();
    assert_eq!(to_little_endian(&data)[0], 31);
    assert_eq!(to_little_endian(&to_little_endian(&data)), data);
}

#[test]
fn all_hex_marks_are_trimmed() {
    assert_eq!(trim_hex_marks("0xff"), "ff");
    assert_eq!(trim_hex_marks("0x0x0xff"), "ff");
    assert_eq!(trim_hex_marks("0Xff"), "0Xff");
    assert_eq!(trim_hex_marks("ff0x"), "ff0x");
    assert_eq!(trim_hex_marks("0x"), "");
    assert_eq!(trim_hex_marks("0"), "0");
    assert_eq!(trim_hex_marks(""), "");
}
