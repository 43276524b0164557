//! Bitcoin blocks, as far as the node reads them.

use bitcoin::consensus::deserialize;
use vstd::prelude::*;

verus! {

/// An output of a transaction: how many satoshis it pays, and the script that it pays to.
#[derive(Debug, Clone, PartialEq, Eq)]
pub struct TxOut {
    pub value: u64,
    pub script_pubkey: Vec<u8>,
}

/// A transaction: its id, in the order that hashes are computed in, and its outputs.
#[derive(Debug, Clone, PartialEq, Eq)]
pub struct Transaction {
    pub txid: [u8; 32],
    pub outputs: Vec<TxOut>,
}

/// A block: its hash and Merkle root, in the order that hashes are computed in, its time in
/// seconds, its transactions, and the bytes that all this was read from.
#[derive(Debug, Clone, PartialEq, Eq)]
pub struct Block {
    pub block_hash: [u8; 32],
    pub merkle_root: [u8; 32],
    pub time: u32,
    pub transactions: Vec<Transaction>,
    pub raw: Vec<u8>,
}

/// What an output holds.
pub struct TxOutView {
    pub value: u64,
    pub script_pubkey: Seq<u8>,
}

/// What a transaction holds.
pub struct TransactionView {
    pub txid: Seq<u8>,
    pub outputs: Seq<TxOutView>,
}

/// What a block holds, without the bytes that it was read from.
pub struct BlockView {
    pub block_hash: Seq<u8>,
    pub merkle_root: Seq<u8>,
    pub time: u32,
    pub transactions: Seq<TransactionView>,
}

impl View for TxOut {
    type V = TxOutView;

    open spec fn view(&self) -> TxOutView {
        TxOutView { value: self.value, script_pubkey: self.script_pubkey@ }
    }
}

impl View for Transaction {
    type V = TransactionView;

    open spec fn view(&self) -> TransactionView {
        TransactionView {
            txid: self.txid@,
            outputs: self.outputs@.map_values(|output: TxOut| output@),
        }
    }
}

impl View for Block {
    type V = BlockView;

    open spec fn view(&self) -> BlockView {
        BlockView {
            block_hash: self.block_hash@,
            merkle_root: self.merkle_root@,
            time: self.time,
            transactions: self.transactions@.map_values(|tx: Transaction| tx@),
        }
    }
}

/// The block that `bitcoin::consensus::deserialize` reads from `data`, where it reads one.
pub uninterp spec fn block_in_bytes(data: Seq<u8>) -> Option<BlockView>;

/// Calls `bitcoin::consensus::deserialize` for a `bitcoin::Block`.
///
/// Whether the bytes are a block, and which, depends on the bytes alone. The hash of the block and
/// the ids of its transactions are those that `block_hash` and `compute_txid` give. The bytes
/// themselves are kept beside.
#[verifier::external_body]
pub(crate) fn deserialize_block(data: &[u8]) -> (r: Option<Block>)
    ensures
        match r {
            Some(block) => block_in_bytes(data@) == Some(block@) && block.raw@ == data@,
            None => block_in_bytes(data@) is None,
        },
{
    let block: bitcoin::Block = deserialize(data).ok()?;
    let transactions = block.txdata.iter().map(|tx| Transaction {
        txid: bitcoin::hashes::Hash::to_byte_array(tx.compute_txid()),
        outputs: tx.output.iter().map(|output| TxOut {
            value: output.value.to_sat(),
            script_pubkey: output.script_pubkey.to_bytes(),
        }).collect(),
    }).collect();
    let block_hash = bitcoin::hashes::Hash::to_byte_array(block.block_hash());
    let merkle_root = bitcoin::hashes::Hash::to_byte_array(block.header.merkle_root);
    Some(Block { block_hash, merkle_root, time: block.header.time, transactions, raw: data.to_vec() })
}

} // verus!
