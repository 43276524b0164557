//! The errors of the node and the text that each is shown with.

use vstd::prelude::*;

use crate::text::{colon_joined, join_with_colon};

verus! {

/// What went wrong, with a text that says more.
#[derive(Debug, Clone, PartialEq, Eq)]
pub enum HypernodeError {
    /// A call to a node failed.
    RpcError(String),
    /// The Bitcoin node's reply cannot be used.
    BitcoinRpc(String),
    /// The Ethereum node or the contract refused.
    Evm(String),
    /// Bytes from the contract cannot be decoded.
    Decode(String),
    /// The reservation store lacks what was asked for.
    Store(String),
    /// A number does not fit.
    Conversion(String),
    /// A work queue is closed.
    Queue(String),
    /// A proof cannot be submitted.
    ProofBroadcast(String),
    /// A proof cannot be generated.
    ProofGeneration(String),
    /// An argument cannot be parsed.
    Parse(String),
    /// The arguments do not go together.
    Config(String),
    /// A connection cannot be made.
    Connection(String),
    /// Indexing failed.
    Indexer(String),
    /// Listening failed.
    Listener(String),
    /// Anything else.
    Unknown(String),
}

/// What went wrong, with the text as a sequence of characters.
pub enum ErrorView {
    RpcError(Seq<char>),
    BitcoinRpc(Seq<char>),
    Evm(Seq<char>),
    Decode(Seq<char>),
    Store(Seq<char>),
    Conversion(Seq<char>),
    Queue(Seq<char>),
    ProofBroadcast(Seq<char>),
    ProofGeneration(Seq<char>),
    Parse(Seq<char>),
    Config(Seq<char>),
    Connection(Seq<char>),
    Indexer(Seq<char>),
    Listener(Seq<char>),
    Unknown(Seq<char>),
}

impl View for HypernodeError {
    type V = ErrorView;

    open spec fn view(&self) -> ErrorView {
        match self {
            HypernodeError::RpcError(text) => ErrorView::RpcError(text@),
            HypernodeError::BitcoinRpc(text) => ErrorView::BitcoinRpc(text@),
            HypernodeError::Evm(text) => ErrorView::Evm(text@),
            HypernodeError::Decode(text) => ErrorView::Decode(text@),
            HypernodeError::Store(text) => ErrorView::Store(text@),
            HypernodeError::Conversion(text) => ErrorView::Conversion(text@),
            HypernodeError::Queue(text) => ErrorView::Queue(text@),
            HypernodeError::ProofBroadcast(text) => ErrorView::ProofBroadcast(text@),
            HypernodeError::ProofGeneration(text) => ErrorView::ProofGeneration(text@),
            HypernodeError::Parse(text) => ErrorView::Parse(text@),
            HypernodeError::Config(text) => ErrorView::Config(text@),
            HypernodeError::Connection(text) => ErrorView::Connection(text@),
            HypernodeError::Indexer(text) => ErrorView::Indexer(text@),
            HypernodeError::Listener(text) => ErrorView::Listener(text@),
            HypernodeError::Unknown(text) => ErrorView::Unknown(text@),
        }
    }
}

impl ErrorView {
    /// The error as it is shown: its kind, then its text.
    pub open spec fn shown(self) -> Seq<char> {
        match self {
            ErrorView::RpcError(text) => colon_joined("Rpc error"@, text),
            ErrorView::BitcoinRpc(text) => colon_joined("Bitcoin RPC error"@, text),
            ErrorView::Evm(text) => colon_joined("Evm error"@, text),
            ErrorView::Decode(text) => colon_joined("Decoding error"@, text),
            ErrorView::Store(text) => colon_joined("Internal storage error"@, text),
            ErrorView::Conversion(text) => colon_joined("Conversion error"@, text),
            ErrorView::Queue(text) => colon_joined("Queue error"@, text),
            ErrorView::ProofBroadcast(text) => colon_joined("Proof broadcast error"@, text),
            ErrorView::ProofGeneration(text) => colon_joined("Proof generation error"@, text),
            ErrorView::Parse(text) => colon_joined("Parse error"@, text),
            ErrorView::Config(text) => colon_joined("Config error"@, text),
            ErrorView::Connection(text) => colon_joined("Connection error"@, text),
            ErrorView::Indexer(text) => colon_joined("Indexer error"@, text),
            ErrorView::Listener(text) => colon_joined("Listener error"@, text),
            ErrorView::Unknown(text) => colon_joined("Unknown error"@, text),
        }
    }
}

impl HypernodeError {
    /// The error as it is shown: its kind, then its text.
    pub fn message(&self) -> (text: String)
        ensures
            text@ == self@.shown(),
    {
        match self {
            HypernodeError::RpcError(text) => join_with_colon("Rpc error", text.as_str()),
            HypernodeError::BitcoinRpc(text) => join_with_colon("Bitcoin RPC error", text.as_str()),
            HypernodeError::Evm(text) => join_with_colon("Evm error", text.as_str()),
            HypernodeError::Decode(text) => join_with_colon("Decoding error", text.as_str()),
            HypernodeError::Store(text) => join_with_colon("Internal storage error", text.as_str()),
            HypernodeError::Conversion(text) => join_with_colon("Conversion error", text.as_str()),
            HypernodeError::Queue(text) => join_with_colon("Queue error", text.as_str()),
            HypernodeError::ProofBroadcast(text) => join_with_colon("Proof broadcast error", text.as_str()),
            HypernodeError::ProofGeneration(text) => join_with_colon("Proof generation error", text.as_str()),
            HypernodeError::Parse(text) => join_with_colon("Parse error", text.as_str()),
            HypernodeError::Config(text) => join_with_colon("Config error", text.as_str()),
            HypernodeError::Connection(text) => join_with_colon("Connection error", text.as_str()),
            HypernodeError::Indexer(text) => join_with_colon("Indexer error", text.as_str()),
            HypernodeError::Listener(text) => join_with_colon("Listener error", text.as_str()),
            HypernodeError::Unknown(text) => join_with_colon("Unknown error", text.as_str()),
        }
    }

    /// The error that a call to a node ends in when it failed with `cause`: what was being done,
    /// then the cause as it is shown.
    pub fn rpc(doing: &str, cause: &HypernodeError) -> (error: HypernodeError)
        ensures
            error@ == ErrorView::RpcError(colon_joined(doing@, cause@.shown())),
    {
        HypernodeError::RpcError(join_with_colon(doing, cause.message().as_str()))
    }
}

/// What a call came to: the value by its view, or the error by its own.
pub open spec fn outcome<T: View>(result: Result<T, HypernodeError>) -> Result<T::V, ErrorView> {
    match result {
        Ok(value) => Ok(value@),
        Err(error) => Err(error@),
    }
}

/// Passes a result on; an error comes out as [`HypernodeError::Unknown`], with the whole message
/// of the one that went in.
pub fn to_eyre_result<T>(result: Result<T, HypernodeError>) -> (r: Result<T, HypernodeError>)
    ensures
        match result {
            Ok(value) => r == Ok::<T, HypernodeError>(value),
            Err(error) => r matches Err(e) && e@ == ErrorView::Unknown(error@.shown()),
        },
{
    match result {
        Ok(value) => Ok(value),
        Err(error) => Err(HypernodeError::Unknown(error.message())),
    }
}

/// Adds to an error what was being done.
pub trait ErrorExt<T>: Sized {
    /// The value, where there is one.
    spec fn value(self) -> Option<T>;

    /// The text of the error, where there is none.
    spec fn error_text(self) -> Seq<char>;

    /// Passes a value on; an error comes out as [`HypernodeError::Unknown`], with `msg` before
    /// its text.
    fn wrap_err_app(self, msg: &str) -> (r: Result<T, HypernodeError>)
        ensures
            match self.value() {
                Some(value) => r == Ok::<T, HypernodeError>(value),
                None => r matches Err(e) && e@ == ErrorView::Unknown(
                    colon_joined(msg@, self.error_text()),
                ),
            },
    ;
}

impl<T> ErrorExt<T> for Result<T, HypernodeError> {
    open spec fn value(self) -> Option<T> {
        match self {
            Ok(value) => Some(value),
            Err(_) => None,
        }
    }

    open spec fn error_text(self) -> Seq<char> {
        self->Err_0@.shown()
    }

    fn wrap_err_app(self, msg: &str) -> (r: Result<T, HypernodeError>) {
        match self {
            Ok(value) => Ok(value),
            Err(error) => Err(
                HypernodeError::Unknown(join_with_colon(msg, error.message().as_str())),
            ),
        }
    }
}

impl<T> ErrorExt<T> for Result<T, String> {
    open spec fn value(self) -> Option<T> {
        match self {
            Ok(value) => Some(value),
            Err(_) => None,
        }
    }

    open spec fn error_text(self) -> Seq<char> {
        self->Err_0@
    }

    fn wrap_err_app(self, msg: &str) -> (r: Result<T, HypernodeError>) {
        match self {
            Ok(value) => Ok(value),
            Err(text) => Err(HypernodeError::Unknown(join_with_colon(msg, text.as_str()))),
        }
    }
}

} // verus!
