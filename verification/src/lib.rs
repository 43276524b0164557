//! The verified core of a hypernode: a node that watches Bitcoin for payments to reservations of
//! an exchange contract on Ethereum, has the payments proven once they are confirmed, submits the
//! proofs and releases the liquidity.
//!
//! What talks to the outside (sockets, clocks, locks, queues, the prover) stays around this crate.
//! Here are the decisions: which payments a block makes, when one is confirmed and from which
//! blocks it is proven, what an event of the contract changes, what is submitted and released, and
//! what the replies of a Bitcoin node mean.

pub mod abi;
pub mod block;
pub mod block_listener;
pub mod btc_indexer;
pub mod btc_rpc;
pub mod bytes;
pub mod constants;
pub mod error;
pub mod event_listener;
pub mod evm_indexer;
pub mod id_set;
pub mod node;
pub mod proof_broadcast;
pub mod proof_builder;
pub mod releaser;
pub mod search;
pub mod store;
pub mod text;
pub mod u256;

use vstd::prelude::*;

verus! {

/// The arguments that a node is started with.
#[derive(Debug, Clone, PartialEq, Eq)]
pub struct HypernodeArgs {
    /// Ethereum RPC websocket URL for indexing and proposing proofs onchain
    pub evm_ws_rpc: String,
    /// Bitcoin RPC URL for indexing
    pub btc_rpc: String,
    /// Ethereum private key for signing hypernode initiated transactions
    pub private_key: String,
    /// Rift Exchange contract address
    pub rift_exchange_address: String,
    /// RPC concurrency limit
    pub rpc_concurrency: usize,
    /// Bitcoin new block polling interval in seconds
    pub btc_polling_interval: u64,
    /// Enable mock proof generation
    pub mock_proof: bool,
    /// Utilize Flashbots to prevent frontrunning on propose + release transactions (recommended
    /// for mainnet)
    pub flashbots: bool,
    /// Flashbots relay URL, required if flashbots is enabled, will only be utilized when
    /// broadcasting transactions
    pub flashbots_relay_rpc: Option<String>,
    /// How many proofs of payments are generated at the same time
    pub proof_gen_concurrency: usize,
    /// Average time between blocks of the Ethereum chain in seconds
    pub evm_block_time: u64,
    /// Average time between Bitcoin blocks in seconds
    pub btc_block_time: u64,
}

} // verus!
