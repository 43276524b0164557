//! The calls that are made to a Bitcoin node, and what its replies mean.

use serde_json::Value;
use vstd::prelude::*;
use vstd::string::*;

use crate::block::{block_in_bytes, deserialize_block, Block, BlockView};
use crate::bytes::{
    exactly_32, hex_decode, hex_digit_value, hex_encode, hex_text, hex_value, is_hex, is_hex_digit,
    law_hex_round_trip,
};
use crate::error::{outcome, ErrorView, HypernodeError};

verus! {

/// A parameter of a call.
#[derive(Debug, Clone, PartialEq, Eq)]
pub enum RpcParam {
    Number(u64),
    Text(String),
}

/// A parameter of a call, with its text as a sequence of characters.
pub enum RpcParamView {
    Number(u64),
    Text(Seq<char>),
}

impl View for RpcParam {
    type V = RpcParamView;

    open spec fn view(&self) -> RpcParamView {
        match self {
            RpcParam::Number(n) => RpcParamView::Number(*n),
            RpcParam::Text(text) => RpcParamView::Text(text@),
        }
    }
}

/// A call to the node: a method and its parameters.
#[derive(Debug, Clone, PartialEq, Eq)]
pub struct RpcCall {
    pub method: String,
    pub params: Vec<RpcParam>,
}

impl RpcCall {
    /// Whether this is the call of `method` with `params`.
    pub open spec fn is_call(self, method: Seq<char>, params: Seq<RpcParamView>) -> bool {
        &&& self.method@ == method
        &&& self.params@.map_values(|param: RpcParam| param@) == params
    }

    /// Asks for the height of the tip.
    pub fn block_count() -> (call: RpcCall)
        ensures
            call.is_call("getblockcount"@, Seq::empty()),
    {
        let params: Vec<RpcParam> = Vec::new();
        assert(params@.map_values(|param: RpcParam| param@) =~= Seq::<RpcParamView>::empty());
        RpcCall { method: "getblockcount".to_owned(), params }
    }

    /// Asks for the hash of the block at `block_height`.
    pub fn block_hash(block_height: u64) -> (call: RpcCall)
        ensures
            call.is_call("getblockhash"@, seq![RpcParamView::Number(block_height)]),
    {
        let mut params: Vec<RpcParam> = Vec::new();
        params.push(RpcParam::Number(block_height));
        assert(params@.map_values(|param: RpcParam| param@) =~= seq![
            RpcParamView::Number(block_height),
        ]);
        RpcCall { method: "getblockhash".to_owned(), params }
    }

    /// Asks for the bytes of the block with hash `block_hash`.
    pub fn block(block_hash: &[u8; 32]) -> (call: RpcCall)
        ensures
            call.is_call(
                "getblock"@,
                seq![RpcParamView::Text(hash_text(*block_hash)), RpcParamView::Number(0)],
            ),
            call.is_call(
                "getblock"@,
                seq![RpcParamView::Text(hex_text(block_hash@)), RpcParamView::Number(0)],
            ),
    {
        let mut params: Vec<RpcParam> = Vec::new();
        params.push(RpcParam::Text(hex_encode(block_hash.as_slice())));
        params.push(RpcParam::Number(0));
        assert(params@.map_values(|param: RpcParam| param@) =~= seq![
            RpcParamView::Text(hex_text(block_hash@)),
            RpcParamView::Number(0),
        ]);
        RpcCall { method: "getblock".to_owned(), params }
    }

    /// Asks for the header of the block with hash `block_hash`, with its chainwork.
    pub fn block_header(block_hash: &[u8; 32]) -> (call: RpcCall)
        ensures
            call.is_call("getblockheader"@, seq![RpcParamView::Text(hash_text(*block_hash))]),
            call.is_call("getblockheader"@, seq![RpcParamView::Text(hex_text(block_hash@))]),
    {
        let mut params: Vec<RpcParam> = Vec::new();
        params.push(RpcParam::Text(hex_encode(block_hash.as_slice())));
        assert(params@.map_values(|param: RpcParam| param@) =~= seq![
            RpcParamView::Text(hex_text(block_hash@)),
        ]);
        RpcCall { method: "getblockheader".to_owned(), params }
    }
}

/// The text that a call names a hash by: its bytes in their order, two digits each.
pub open spec fn hash_text(hash: [u8; 32]) -> Seq<char> {
    hex_text(hash@)
}

/// A JSON value, seen from outside: a number only where it fits, lists and objects closed.
#[derive(Debug, Clone, PartialEq, Eq)]
pub enum JsonNode {
    Null,
    Bool(bool),
    Number(Option<u64>),
    Text(String),
    Array,
    Object,
}

/// A JSON value, seen from outside, with its text as a sequence of characters.
pub enum JsonNodeView {
    Null,
    Bool(bool),
    Number(Option<u64>),
    Text(Seq<char>),
    Array,
    Object,
}

impl View for JsonNode {
    type V = JsonNodeView;

    open spec fn view(&self) -> JsonNodeView {
        match self {
            JsonNode::Null => JsonNodeView::Null,
            JsonNode::Bool(b) => JsonNodeView::Bool(*b),
            JsonNode::Number(n) => JsonNodeView::Number(*n),
            JsonNode::Text(text) => JsonNodeView::Text(text@),
            JsonNode::Array => JsonNodeView::Array,
            JsonNode::Object => JsonNodeView::Object,
        }
    }
}

/// A JSON value that may be missing, with its text as a sequence of characters.
pub open spec fn node_view(node: Option<JsonNode>) -> Option<JsonNodeView> {
    match node {
        Some(node) => Some(node@),
        None => None,
    }
}

/// The text of the error that `serde_json::from_str` gives on `text`, where `text` is no JSON
/// document.
pub uninterp spec fn json_error_in_text(text: Seq<char>) -> Option<Seq<char>>;

/// The value that `serde_json::Value::pointer` finds at `pointer` in the document `text`.
pub uninterp spec fn json_node_in_text(text: Seq<char>, pointer: Seq<char>) -> Option<JsonNodeView>;

/// Calls `serde_json::from_str` for a `Value`, then `Value::pointer`.
///
/// Whether `text` is a document, and with which error it is none, depends on `text` alone. What is
/// found depends on `text` and `pointer` alone. A number is kept where `Number::as_u64` gives it.
#[verifier::external_body]
pub(crate) fn json_node(text: &str, pointer: &str) -> (r: Result<Option<JsonNode>, String>)
    ensures
        match r {
            Ok(node) => {
                &&& json_error_in_text(text@) is None
                &&& json_node_in_text(text@, pointer@) == node_view(node)
            },
            Err(e) => json_error_in_text(text@) == Some(e@),
        },
{
    let document: Value = serde_json::from_str(text).map_err(|e| e.to_string())?;
    Ok(document.pointer(pointer).map(|node| match node {
        Value::Null => JsonNode::Null,
        Value::Bool(b) => JsonNode::Bool(*b),
        Value::Number(n) => JsonNode::Number(n.as_u64()),
        Value::String(text) => JsonNode::Text(text.clone()),
        Value::Array(_) => JsonNode::Array,
        Value::Object(_) => JsonNode::Object,
    }))
}

/// What is read of a reply: its members `error` and `result`, and the member `chainwork` of the
/// latter.
#[derive(Debug, Clone, PartialEq, Eq)]
pub struct RpcReply {
    pub error: Option<JsonNode>,
    pub result: Option<JsonNode>,
    pub chainwork: Option<JsonNode>,
}

/// What is read of a reply, with its texts as sequences of characters.
pub struct RpcReplyView {
    pub error: Option<JsonNodeView>,
    pub result: Option<JsonNodeView>,
    pub chainwork: Option<JsonNodeView>,
}

impl View for RpcReply {
    type V = RpcReplyView;

    open spec fn view(&self) -> RpcReplyView {
        RpcReplyView {
            error: node_view(self.error),
            result: node_view(self.result),
            chainwork: node_view(self.chainwork),
        }
    }
}

/// What the document `body` is read as, or the text of the error in reading it.
pub open spec fn reply_in_text(body: Seq<char>) -> Result<RpcReplyView, Seq<char>> {
    match json_error_in_text(body) {
        Some(text) => Err(text),
        None => Ok(
            RpcReplyView {
                error: json_node_in_text(body, "/error"@),
                result: json_node_in_text(body, "/result"@),
                chainwork: json_node_in_text(body, "/result/chainwork"@),
            },
        ),
    }
}

/// A reply that was read, or the text of the error in reading it.
pub open spec fn read_view(read: Result<RpcReply, String>) -> Result<RpcReplyView, Seq<char>> {
    match read {
        Ok(reply) => Ok(reply@),
        Err(text) => Err(text@),
    }
}

/// Reads the document `body` that a node replied with.
pub fn read_reply(body: &str) -> (r: Result<RpcReply, String>)
    ensures
        read_view(r) == reply_in_text(body@),
{
    let error = match json_node(body, "/error") {
        Ok(node) => node,
        Err(e) => return Err(e),
    };
    let result = match json_node(body, "/result") {
        Ok(node) => node,
        Err(e) => return Err(e),
    };
    let chainwork = match json_node(body, "/result/chainwork") {
        Ok(node) => node,
        Err(e) => return Err(e),
    };
    Ok(RpcReply { error, result, chainwork })
}

/// The text of an error in an exchange with the node: `head`, then the call and the reply.
pub open spec fn exchange_text(
    head: Seq<char>,
    method: Seq<char>,
    params: Seq<char>,
    status: Seq<char>,
    body: Seq<char>,
) -> Seq<char> {
    head + ". Method: "@ + method + ", Params: "@ + params + ", Status: "@ + status + ", Body: "@
        + body
}

/// Puts together the text of an error in an exchange with the node.
fn exchange_message(head: &str, method: &str, params: &str, status: &str, body: &str) -> (text:
    String)
    ensures
        text@ == exchange_text(head@, method@, params@, status@, body@),
{
    let mut text = head.to_owned();
    text.append(". Method: ");
    text.append(method);
    text.append(", Params: ");
    text.append(params);
    text.append(", Status: ");
    text.append(status);
    text.append(", Body: ");
    text.append(body);
    text
}

/// The result of a call: the value itself, and its member `chainwork`.
#[derive(Debug, Clone, PartialEq, Eq)]
pub struct RpcResult {
    pub value: JsonNode,
    pub chainwork: Option<JsonNode>,
}

/// The result of a call, with its texts as sequences of characters.
pub struct RpcResultView {
    pub value: JsonNodeView,
    pub chainwork: Option<JsonNodeView>,
}

impl View for RpcResult {
    type V = RpcResultView;

    open spec fn view(&self) -> RpcResultView {
        RpcResultView { value: self.value@, chainwork: node_view(self.chainwork) }
    }
}

/// Whether a reply reports an error: it has a member `error` that is not null.
pub open spec fn reports_error(reply: RpcReplyView) -> bool {
    reply.error matches Some(node) && node !is Null
}

/// What a reply that was read, or the error in reading it, comes to: an unreadable reply, one that
/// reports an error and one without a result are refused, in this order.
pub open spec fn reply_outcome(
    read: Result<RpcReplyView, Seq<char>>,
    method: Seq<char>,
    params: Seq<char>,
    status: Seq<char>,
    body: Seq<char>,
) -> Result<RpcResultView, ErrorView> {
    match read {
        Err(error) => Err(
            ErrorView::BitcoinRpc(
                exchange_text("Failed to parse JSON"@, method, params, status, body) + ", Error: "@
                    + error,
            ),
        ),
        Ok(reply) => if reports_error(reply) {
            Err(ErrorView::BitcoinRpc(exchange_text("RPC error"@, method, params, status, body)))
        } else {
            match reply.result {
                None => Err(
                    ErrorView::BitcoinRpc(
                        exchange_text("No 'result' in response"@, method, params, status, body),
                    ),
                ),
                Some(value) => Ok(RpcResultView { value, chainwork: reply.chainwork }),
            }
        },
    }
}

/// Takes the result out of a reply that was read, or refuses the reply, as [`reply_outcome`] says.
pub fn check_reply(
    read: Result<RpcReply, String>,
    method: &str,
    params: &str,
    status: &str,
    body: &str,
) -> (r: Result<RpcResult, HypernodeError>)
    ensures
        outcome(r) == reply_outcome(read_view(read), method@, params@, status@, body@),
{
    match read {
        Err(error) => {
            let mut text = exchange_message("Failed to parse JSON", method, params, status, body);
            text.append(", Error: ");
            text.append(error.as_str());
            Err(HypernodeError::BitcoinRpc(text))
        },
        Ok(reply) => {
            let refused = match &reply.error {
                Some(JsonNode::Null) => false,
                Some(_) => true,
                None => false,
            };
            if refused {
                return Err(
                    HypernodeError::BitcoinRpc(
                        exchange_message("RPC error", method, params, status, body),
                    ),
                );
            }
            match reply.result {
                None => Err(
                    HypernodeError::BitcoinRpc(
                        exchange_message("No 'result' in response", method, params, status, body),
                    ),
                ),
                Some(value) => Ok(RpcResult { value, chainwork: reply.chainwork }),
            }
        },
    }
}

/// Takes the result out of the reply `body` to a call, or refuses the reply.
pub fn receive(method: &str, params: &str, status: &str, body: &str) -> (r: Result<
    RpcResult,
    HypernodeError,
>)
    ensures
        outcome(r) == reply_outcome(reply_in_text(body@), method@, params@, status@, body@),
{
    let read = read_reply(body);
    check_reply(read, method, params, status, body)
}

/// The height of the tip in the result of a call.
pub open spec fn block_count_of(result: RpcResultView) -> Result<u64, ErrorView> {
    match result.value {
        JsonNodeView::Number(Some(n)) => Ok(n),
        _ => Err(ErrorView::BitcoinRpc("Invalid block count"@)),
    }
}

/// Reads the height of the tip from the result of a call.
pub fn read_block_count(result: &RpcResult) -> (r: Result<u64, HypernodeError>)
    ensures
        outcome(r) == block_count_of(result@),
{
    match &result.value {
        JsonNode::Number(Some(n)) => Ok(*n),
        _ => Err(HypernodeError::BitcoinRpc("Invalid block count".to_owned())),
    }
}

/// Whether `text` is 32 bytes in hexadecimal digits.
pub open spec fn is_hash_text(text: Seq<char>) -> bool {
    is_hex(text) && text.len() == 64
}

/// The 32 bytes that `text` stands for in hexadecimal digits.
fn hash_of_text(text: &str) -> (r: Option<[u8; 32]>)
    ensures
        match r {
            Some(hash) => is_hash_text(text@) && hash@ == hex_value(text@),
            None => !is_hash_text(text@),
        },
{
    match hex_decode(text) {
        Ok(data) => exactly_32(data.as_slice()),
        Err(_) => None,
    }
}

/// The hash of a block in the result of a call, in the order that hashes are shown in.
pub open spec fn block_hash_of(result: RpcResultView) -> Result<Seq<u8>, ErrorView> {
    match result.value {
        JsonNodeView::Text(text) => if is_hash_text(text) {
            Ok(hex_value(text))
        } else {
            Err(ErrorView::BitcoinRpc("Invalid block hash"@))
        },
        _ => Err(ErrorView::BitcoinRpc("Block hash doesn't exist"@)),
    }
}

/// Reads the hash of a block from the result of a call.
pub fn read_block_hash(result: &RpcResult) -> (r: Result<[u8; 32], HypernodeError>)
    ensures
        outcome(r) == block_hash_of(result@),
{
    match &result.value {
        JsonNode::Text(text) => match hash_of_text(text.as_str()) {
            Some(hash) => Ok(hash),
            None => Err(HypernodeError::BitcoinRpc("Invalid block hash".to_owned())),
        },
        _ => Err(HypernodeError::BitcoinRpc("Block hash doesn't exist".to_owned())),
    }
}

/// The block that was read from bytes, if one was.
pub fn decoded_block(read: Option<Block>) -> (r: Result<Block, HypernodeError>)
    ensures
        match read {
            Some(block) => r == Ok::<Block, HypernodeError>(block),
            None => r matches Err(e) && e@ == ErrorView::BitcoinRpc(
                "Failed to deserialize block"@,
            ),
        },
{
    match read {
        Some(block) => Ok(block),
        None => Err(HypernodeError::BitcoinRpc("Failed to deserialize block".to_owned())),
    }
}

/// The block in the result of a call.
pub open spec fn block_of(result: RpcResultView) -> Result<BlockView, ErrorView> {
    match result.value {
        JsonNodeView::Text(text) => if is_hex(text) {
            match block_in_bytes(hex_value(text)) {
                Some(block) => Ok(block),
                None => Err(ErrorView::BitcoinRpc("Failed to deserialize block"@)),
            }
        } else {
            Err(ErrorView::BitcoinRpc("Invalid block data"@))
        },
        _ => Err(ErrorView::BitcoinRpc("Block doesn't exist"@)),
    }
}

/// Reads the block from the result of a call.
pub fn read_block(result: &RpcResult) -> (r: Result<Block, HypernodeError>)
    ensures
        outcome(r) == block_of(result@),
        r matches Ok(block) ==> result@.value matches JsonNodeView::Text(text) && block.raw@
            == hex_value(text),
{
    match &result.value {
        JsonNode::Text(text) => match hex_decode(text.as_str()) {
            Ok(data) => decoded_block(deserialize_block(data.as_slice())),
            Err(_) => Err(HypernodeError::BitcoinRpc("Invalid block data".to_owned())),
        },
        _ => Err(HypernodeError::BitcoinRpc("Block doesn't exist".to_owned())),
    }
}

/// The chainwork in the result of a call: the work in the chain up to a block, highest byte first.
pub open spec fn chainwork_of(result: RpcResultView) -> Result<Seq<u8>, ErrorView> {
    match result.chainwork {
        Some(JsonNodeView::Text(text)) => if is_hash_text(text) {
            Ok(hex_value(text))
        } else {
            Err(ErrorView::BitcoinRpc("Invalid chainwork data"@))
        },
        _ => Err(ErrorView::BitcoinRpc("Chainwork doesn't exist"@)),
    }
}

/// Reads the chainwork from the result of a call.
pub fn read_chainwork(result: &RpcResult) -> (r: Result<[u8; 32], HypernodeError>)
    ensures
        outcome(r) == chainwork_of(result@),
{
    match &result.chainwork {
        Some(JsonNode::Text(text)) => match hash_of_text(text.as_str()) {
            Some(work) => Ok(work),
            None => Err(HypernodeError::BitcoinRpc("Invalid chainwork data".to_owned())),
        },
        _ => Err(HypernodeError::BitcoinRpc("Chainwork doesn't exist".to_owned())),
    }
}

/// A reply to a call, as it came: the status and the body, with the text of the call's parameters.
#[derive(Debug, Clone, Copy)]
pub struct RawReply<'a> {
    pub params: &'a str,
    pub status: &'a str,
    pub body: &'a str,
}

/// What the reply to a call of `method` comes to.
pub open spec fn raw_outcome(method: Seq<char>, reply: RawReply) -> Result<
    RpcResultView,
    ErrorView,
> {
    reply_outcome(
        reply_in_text(reply.body@),
        method,
        reply.params@,
        reply.status@,
        reply.body@,
    )
}

/// The height of the tip in the reply to [`RpcCall::block_count`].
pub fn block_count_reply(reply: RawReply) -> (r: Result<u64, HypernodeError>)
    ensures
        outcome(r) == match raw_outcome("getblockcount"@, reply) {
            Ok(result) => block_count_of(result),
            Err(e) => Err(e),
        },
{
    match receive("getblockcount", reply.params, reply.status, reply.body) {
        Ok(result) => read_block_count(&result),
        Err(e) => Err(e),
    }
}

/// The hash in the reply to [`RpcCall::block_hash`].
pub fn block_hash_reply(reply: RawReply) -> (r: Result<[u8; 32], HypernodeError>)
    ensures
        outcome(r) == match raw_outcome("getblockhash"@, reply) {
            Ok(result) => block_hash_of(result),
            Err(e) => Err(e),
        },
{
    match receive("getblockhash", reply.params, reply.status, reply.body) {
        Ok(result) => read_block_hash(&result),
        Err(e) => Err(e),
    }
}

/// The block in the reply to [`RpcCall::block`].
pub fn block_reply(reply: RawReply) -> (r: Result<Block, HypernodeError>)
    ensures
        outcome(r) == match raw_outcome("getblock"@, reply) {
            Ok(result) => block_of(result),
            Err(e) => Err(e),
        },
        r matches Ok(block) ==> (raw_outcome("getblock"@, reply) matches Ok(result)
            && result.value matches JsonNodeView::Text(text) && block.raw@ == hex_value(text)),
{
    match receive("getblock", reply.params, reply.status, reply.body) {
        Ok(result) => read_block(&result),
        Err(e) => Err(e),
    }
}

/// The chainwork in the reply to [`RpcCall::block_header`].
pub fn chainwork_reply(reply: RawReply) -> (r: Result<[u8; 32], HypernodeError>)
    ensures
        outcome(r) == match raw_outcome("getblockheader"@, reply) {
            Ok(result) => chainwork_of(result),
            Err(e) => Err(e),
        },
{
    match receive("getblockheader", reply.params, reply.status, reply.body) {
        Ok(result) => read_chainwork(&result),
        Err(e) => Err(e),
    }
}

/// A reply that reports an error, and one without a result, is never taken for a result.
pub proof fn law_refused_reply(
    reply: RpcReplyView,
    method: Seq<char>,
    params: Seq<char>,
    status: Seq<char>,
    body: Seq<char>,
)
    ensures
        reply_outcome(Ok(reply), method, params, status, body) is Ok <==> !reports_error(reply)
            && reply.result is Some,
        forall|text: Seq<char>| #[trigger]
            reply_outcome(Err(text), method, params, status, body) is Err,
{
}

/// The hash that a call asks for a block by is written as the node writes hashes: reading it back
/// gives the same bytes.
pub proof fn law_hash_text(hash: [u8; 32])
    ensures
        is_hash_text(hex_text(hash@)),
        hex_value(hex_text(hash@)) == hash@,
        is_hash_text(hash_text(hash)),
        hex_value(hash_text(hash)) == hash@,
        hash_text(hash).len() == 64,
        forall|i: int|
            0 <= i < 32 ==> #[trigger] hash@[i] == 16 * hex_digit_value(hash_text(hash)[2 * i])
                + hex_digit_value(hash_text(hash)[2 * i + 1]),
{
    law_hex_round_trip(hash@);
    assert forall|i: int| 0 <= i < 32 implies #[trigger] hash@[i] == 16 * hex_digit_value(
        hash_text(hash)[2 * i],
    ) + hex_digit_value(hash_text(hash)[2 * i + 1]) by {
        assert(hex_value(hash_text(hash))[i] == hash@[i]);
        assert(is_hex_digit(hash_text(hash)[2 * i]));
        assert(is_hex_digit(hash_text(hash)[2 * i + 1]));
    }
}

/// A reply gives its result exactly when it can be read, has a result, and has no error or one that
/// is null; the result is passed on as it is. Whatever is refused is refused as an error of the
/// node.
pub proof fn law_reply(
    read: Result<RpcReplyView, Seq<char>>,
    method: Seq<char>,
    params: Seq<char>,
    status: Seq<char>,
    body: Seq<char>,
)
    ensures
        match reply_outcome(read, method, params, status, body) {
            Ok(result) => {
                &&& read matches Ok(reply)
                &&& reply.error is None || reply.error == Some(JsonNodeView::Null)
                &&& reply.result == Some(result.value)
                &&& reply.chainwork == result.chainwork
            },
            Err(error) => {
                &&& error is BitcoinRpc
                &&& read matches Ok(reply) ==> reply.result is None || reply.error is Some
                    && reply.error != Some(JsonNodeView::Null)
            },
        },
{
}

/// What a node writes for a hash, a chainwork or a count is read as just that, and everything that
/// is not written so is refused as an error of the node.
pub proof fn law_read_back(hash: [u8; 32], count: u64, result: RpcResultView)
    ensures
        result.value == JsonNodeView::Text(hash_text(hash)) ==> block_hash_of(result) == Ok::<
            Seq<u8>,
            ErrorView,
        >(hash@),
        result.chainwork == Some(JsonNodeView::Text(hash_text(hash))) ==> chainwork_of(result)
            == Ok::<Seq<u8>, ErrorView>(hash@),
        result.value == JsonNodeView::Number(Some(count)) ==> block_count_of(result) == Ok::<
            u64,
            ErrorView,
        >(count),
        block_hash_of(result) is Ok <==> {
            &&& result.value matches JsonNodeView::Text(text)
            &&& is_hex(text)
            &&& text.len() == 64
        },
        block_hash_of(result) matches Ok(data) ==> data == hex_value(result.value->Text_0),
        chainwork_of(result) is Ok <==> {
            &&& result.chainwork matches Some(JsonNodeView::Text(text))
            &&& is_hex(text)
            &&& text.len() == 64
        },
        chainwork_of(result) matches Ok(data) ==> data == hex_value(result.chainwork->0->Text_0),
        block_hash_of(result) matches Ok(data) ==> data.len() == 32 && result.value is Text,
        chainwork_of(result) matches Ok(data) ==> data.len() == 32 && result.chainwork is Some
            && result.chainwork->0 is Text,
        block_count_of(result) matches Ok(n) ==> result.value == JsonNodeView::Number(Some(n)),
        block_hash_of(result) matches Err(error) ==> error is BitcoinRpc,
        chainwork_of(result) matches Err(error) ==> error is BitcoinRpc,
        block_count_of(result) matches Err(error) ==> error is BitcoinRpc,
{
    law_hash_text(hash);
}

/// A block is read from just the bytes that the digits of the result stand for.
pub proof fn law_block_read(data: Seq<u8>, result: RpcResultView)
    ensures
        result.value == JsonNodeView::Text(hex_text(data)) ==> match block_in_bytes(data) {
            Some(block) => block_of(result) == Ok::<BlockView, ErrorView>(block),
            None => block_of(result) matches Err(error) && error is BitcoinRpc,
        },
        block_of(result) is Ok <==> {
            &&& result.value matches JsonNodeView::Text(text)
            &&& is_hex(text)
            &&& block_in_bytes(hex_value(text)) is Some
        },
        block_of(result) matches Ok(block) ==> block_in_bytes(hex_value(result.value->Text_0))
            == Some(block),
        block_of(result) matches Err(error) ==> error is BitcoinRpc,
{
    law_hex_round_trip(data);
}

/// The text of an error in an exchange holds, whole and in this order, what went wrong, the method,
/// the parameters, the status and, at its end, the body.
pub proof fn law_exchange_text(
    head: Seq<char>,
    method: Seq<char>,
    params: Seq<char>,
    status: Seq<char>,
    body: Seq<char>,
)
    ensures
        ({
            let text = exchange_text(head, method, params, status, body);
            let a = head.len() + 10;
            let b = a + method.len() + 10;
            let c = b + params.len() + 10;
            let d = c + status.len() + 8;
            &&& text.len() == d + body.len()
            &&& text.subrange(0, head.len() as int) == head
            &&& text.subrange(a as int, (a + method.len()) as int) == method
            &&& text.subrange(b as int, (b + params.len()) as int) == params
            &&& text.subrange(c as int, (c + status.len()) as int) == status
            &&& text.subrange(d as int, text.len() as int) == body
        }),
{
    reveal_strlit(". Method: ");
    reveal_strlit(", Params: ");
    reveal_strlit(", Status: ");
    reveal_strlit(", Body: ");
    let text = exchange_text(head, method, params, status, body);
    let a = head.len() + 10;
    let b = a + method.len() + 10;
    let c = b + params.len() + 10;
    let d = c + status.len() + 8;
    assert(text.subrange(0, head.len() as int) =~= head);
    assert(text.subrange(a as int, (a + method.len()) as int) =~= method);
    assert(text.subrange(b as int, (b + params.len()) as int) =~= params);
    assert(text.subrange(c as int, (c + status.len()) as int) =~= status);
    assert(text.subrange(d as int, text.len() as int) =~= body);
}

} // verus!
