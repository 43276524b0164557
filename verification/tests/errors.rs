use hypernode::error::{to_eyre_result, ErrorExt, HypernodeError};

fn text(s: &str) -> String {
    s.to_string()
}

#[test]
fn every_error_is_shown_with_its_kind() {
    let shown: Vec<(HypernodeError, &str)> = vec![
        (HypernodeError::RpcError(text("x")), "Rpc error: x"),
        (HypernodeError::BitcoinRpc(text("x")), "Bitcoin RPC error: x"),
        (HypernodeError::Evm(text("x")), "Evm error: x"),
        (HypernodeError::Decode(text("x")), "Decoding error: x"),
        (HypernodeError::Store(text("x")), "Internal storage error: x"),
        (HypernodeError::Conversion(text("x")), "Conversion error: x"),
        (HypernodeError::Queue(text("x")), "Queue error: x"),
        (HypernodeError::ProofBroadcast(text("x")), "Proof broadcast error: x"),
        (HypernodeError::ProofGeneration(text("x")), "Proof generation error: x"),
        (HypernodeError::Parse(text("x")), "Parse error: x"),
        (HypernodeError::Config(text("x")), "Config error: x"),
        (HypernodeError::Connection(text("x")), "Connection error: x"),
        (HypernodeError::Indexer(text("x")), "Indexer error: x"),
        (HypernodeError::Listener(text("x")), "Listener error: x"),
        (HypernodeError::Unknown(text("")), "Unknown error: "),
    ];
    for (error, message) in shown {
        assert_eq!(error.message(), message);
    }
}

#[test]
fn a_failed_call_says_what_was_being_done() {
    let cause = HypernodeError::BitcoinRpc(text("Invalid block count"));
    assert_eq!(
        HypernodeError::rpc("Failed to get block count", &cause),
        HypernodeError::RpcError(text(
            "Failed to get block count: Bitcoin RPC error: Invalid block count"
        ))
    );
}

#[test]
fn a_result_is_passed_on_or_wrapped_whole() {
    assert_eq!(to_eyre_result(Ok(7u8)), Ok(7u8));
    let failed: Result<u8, HypernodeError> = Err(HypernodeError::Queue(text("closed")));
    assert_eq!(
        to_eyre_result(failed),
        Err(HypernodeError::Unknown(text("Queue error: closed")))
    );
}

#[test]
fn wrapping_adds_a_message() {
    let failed: Result<u8, HypernodeError> = Err(HypernodeError::Evm(text("reverted")));
    assert_eq!(
        failed.wrap_err_app("Failed to call"),
        Err(HypernodeError::Unknown(text("Failed to call: Evm error: reverted")))
    );
    let outside: Result<u8, String> = Err(text("timed out"));
    assert_eq!(
        outside.wrap_err_app("Failed to connect"),
        Err(HypernodeError::Unknown(text("Failed to connect: timed out")))
    );
    let fine: Result<u8, String> = Ok(3);
    assert_eq!(fine.wrap_err_app("Failed to connect"), Ok(3));
}
