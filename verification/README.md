# hypernode

A hypernode watches the Bitcoin chain for payments to the open reservations of the Rift exchange
contract on Ethereum. Once a payment is confirmed it has the payment proven, submits the proof to
the contract, and releases the liquidity when the challenge period is over.

The decisions of the node are a library that is verified with Verus; what talks to the outside is
ordinary Rust around it.

## Layout

`src/` is the verified library.

| module | what it decides |
| --- | --- |
| `store` | which reservations are watched and what is known of each |
| `block`, `btc_rpc` | what a Bitcoin node is asked and what its replies mean |
| `btc_indexer` | which payments a block makes, when one is confirmed, from which blocks it is proven |
| `block_listener` | which blocks are analyzed next, and in which order |
| `search` | the block that a chain had some hours ago, or before its oldest reservation |
| `abi`, `evm_indexer` | what the helpers of the contract give: vaults and known headers |
| `event_listener` | what an event of the contract changes |
| `proof_builder`, `proof_broadcast` | what a proof is made from and what is submitted |
| `releaser` | which liquidity can be released |
| `node` | the arguments |
| `error`, `text`, `bytes`, `u256`, `id_set`, `constants` | what the others share |

The laws that hold across functions are the public proof functions whose names begin with `law_`:
that no block is skipped and no payment missed, that the scan of the Bitcoin chain starts before
every open reservation, that what the contract encodes is what is decoded, that a payment confirmed
as planned can be proven and then submitted, that a release is asked for once, and so on.

`Cargo.toml` names `ruint` and `serde_with` only to hold the versions that `alloy` brings in: `ruint`
is what its 256-bit numbers are made of.

`tests/` runs the library on values. `app/` is the program: command line, sockets, clocks, locks,
queues. It needs the contract's `artifacts/` and the exchange's circuit crates `rift_core` and
`rift_lib`.
