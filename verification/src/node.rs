//! The arguments that a node is started with.

use std::str::FromStr;

use vstd::prelude::*;
use vstd::string::*;

use crate::bytes::{
    first_32, hex_decode, hex_error_text, hex_text, hex_value, is_hex, is_hex_digit, law_hex_marks,
    law_hex_round_trip, law_marked_hex, trim_hex_marks, without_hex_marks,
};
use crate::error::{outcome, ErrorView, HypernodeError};
use crate::text::{colon_joined, join_with_colon};
use crate::HypernodeArgs;

verus! {

/// `text` without the mark `0x` or `0X` that it starts with, if it does.
pub open spec fn without_prefix(text: Seq<char>) -> Seq<char> {
    if text.len() >= 2 && text[0] == '0' && (text[1] == 'x' || text[1] == 'X') {
        text.skip(2)
    } else {
        text
    }
}

/// Whether `text` is an address: 20 bytes in hexadecimal digits, behind a mark or not.
pub open spec fn is_address_text(text: Seq<char>) -> bool {
    is_hex(without_prefix(text)) && without_prefix(text).len() == 40
}

/// The text of the error that `alloy::primitives::Address::from_str` gives on `text`, where `text`
/// is no address.
pub uninterp spec fn address_error_text(text: Seq<char>) -> Seq<char>;

/// Calls `from_str` of `alloy::primitives::Address`.
///
/// It succeeds exactly on 40 hexadecimal digits, in either case, behind at most one mark `0x` or
/// `0X`; a checksum in the case of the digits is not looked at. Otherwise it gives an error, of
/// which the text is kept.
#[verifier::external_body]
fn parse_address(text: &str) -> (r: Result<[u8; 20], String>)
    ensures
        match r {
            Ok(address) => is_address_text(text@) && address@ == hex_value(without_prefix(text@)),
            Err(e) => !is_address_text(text@) && e@ == address_error_text(text@),
        },
{
    alloy::primitives::Address::from_str(text).map(|a| a.into_array()).map_err(|e| e.to_string())
}

/// The address that parsing its text gave, or the error that it ended in.
pub fn read_address(parsed: Result<[u8; 20], String>) -> (r: Result<[u8; 20], HypernodeError>)
    ensures
        match parsed {
            Ok(address) => r == Ok::<[u8; 20], HypernodeError>(address),
            Err(text) => r matches Err(e) && e@ == ErrorView::Parse(
                colon_joined("Failed to parse Rift exchange address"@, text@),
            ),
        },
{
    match parsed {
        Ok(address) => Ok(address),
        Err(text) => Err(
            HypernodeError::Parse(
                join_with_colon("Failed to parse Rift exchange address", text.as_str()),
            ),
        ),
    }
}

/// The private key that decoding its text gave: the first 32 bytes; or the error that it ended in.
pub fn read_private_key(decoded: Result<Vec<u8>, String>) -> (r: Result<[u8; 32], HypernodeError>)
    ensures
        match decoded {
            Ok(data) => if data@.len() >= 32 {
                r matches Ok(key) && key@ == data@.take(32)
            } else {
                r matches Err(e) && e@ == ErrorView::Parse("Invalid private key length"@)
            },
            Err(text) => r matches Err(e) && e@ == ErrorView::Parse(
                colon_joined("Failed to decode private key"@, text@),
            ),
        },
{
    match decoded {
        Ok(data) => match first_32(data.as_slice()) {
            Some(key) => {
                assert(data@.take(32) =~= data@.subrange(0, 32));
                Ok(key)
            },
            None => Err(HypernodeError::Parse("Invalid private key length".to_owned())),
        },
        Err(text) => Err(
            HypernodeError::Parse(join_with_colon("Failed to decode private key", text.as_str())),
        ),
    }
}

/// What a node needs to know before it connects to anything.
#[derive(Debug, Clone, PartialEq, Eq)]
pub struct NodeSettings {
    pub rift_exchange_address: [u8; 20],
    /// The relay that transactions are sent through, if they are.
    pub flashbots_url: Option<String>,
    pub private_key: [u8; 32],
}

/// What a node needs to know, with its text as a sequence of characters.
pub struct NodeSettingsView {
    pub rift_exchange_address: Seq<u8>,
    pub flashbots_url: Option<Seq<char>>,
    pub private_key: Seq<u8>,
}

/// A text that may be missing, as a sequence of characters.
pub open spec fn text_view(text: Option<String>) -> Option<Seq<char>> {
    match text {
        Some(text) => Some(text@),
        None => None,
    }
}

impl View for NodeSettings {
    type V = NodeSettingsView;

    open spec fn view(&self) -> NodeSettingsView {
        NodeSettingsView {
            rift_exchange_address: self.rift_exchange_address@,
            flashbots_url: text_view(self.flashbots_url),
            private_key: self.private_key@,
        }
    }
}

/// The address in the text of an argument.
pub open spec fn address_of(text: Seq<char>) -> Result<Seq<u8>, ErrorView> {
    if is_address_text(text) {
        Ok(hex_value(without_prefix(text)))
    } else {
        Err(
            ErrorView::Parse(
                colon_joined("Failed to parse Rift exchange address"@, address_error_text(text)),
            ),
        )
    }
}

/// The relay to use, if one is to be used.
pub open spec fn flashbots_url_of(flashbots: bool, relay: Option<Seq<char>>) -> Result<
    Option<Seq<char>>,
    ErrorView,
> {
    if !flashbots {
        Ok(None)
    } else {
        match relay {
            Some(url) => Ok(Some(url)),
            None => Err(
                ErrorView::Config("Flashbots relay URL is required when flashbots is enabled"@),
            ),
        }
    }
}

/// The private key in the text of an argument: the first 32 bytes in hexadecimal digits, behind
/// any number of marks `0x`.
pub open spec fn private_key_of(text: Seq<char>) -> Result<Seq<u8>, ErrorView> {
    let digits = without_hex_marks(text);
    if !is_hex(digits) {
        Err(ErrorView::Parse(colon_joined("Failed to decode private key"@, hex_error_text(digits))))
    } else if hex_value(digits).len() < 32 {
        Err(ErrorView::Parse("Invalid private key length"@))
    } else {
        Ok(hex_value(digits).take(32))
    }
}

/// What the arguments say, or what is the first thing wrong with them.
pub open spec fn settings_of(args: HypernodeArgs) -> Result<NodeSettingsView, ErrorView> {
    match address_of(args.rift_exchange_address@) {
        Err(e) => Err(e),
        Ok(rift_exchange_address) => match flashbots_url_of(
            args.flashbots,
            text_view(args.flashbots_relay_rpc),
        ) {
            Err(e) => Err(e),
            Ok(flashbots_url) => match private_key_of(args.private_key@) {
                Err(e) => Err(e),
                Ok(private_key) => Ok(
                    NodeSettingsView { rift_exchange_address, flashbots_url, private_key },
                ),
            },
        },
    }
}

/// Reads the arguments that a node is started with.
pub fn read_args(args: &HypernodeArgs) -> (r: Result<NodeSettings, HypernodeError>)
    ensures
        outcome(r) == settings_of(*args),
{
    let rift_exchange_address = match read_address(
        parse_address(args.rift_exchange_address.as_str()),
    ) {
        Ok(address) => address,
        Err(e) => return Err(e),
    };
    let flashbots_url = if args.flashbots {
        match &args.flashbots_relay_rpc {
            Some(url) => Some(url.as_str().to_owned()),
            None => return Err(
                HypernodeError::Config(
                    "Flashbots relay URL is required when flashbots is enabled".to_owned(),
                ),
            ),
        }
    } else {
        None
    };
    let decoded = hex_decode(trim_hex_marks(args.private_key.as_str()));
    let private_key = match read_private_key(decoded) {
        Ok(key) => key,
        Err(e) => return Err(e),
    };
    Ok(NodeSettings { rift_exchange_address, flashbots_url, private_key })
}

/// An address is read from its 20 bytes in hexadecimal digits, with the mark or without.
pub proof fn law_address(data: Seq<u8>)
    requires
        data.len() == 20,
    ensures
        address_of(hex_text(data)) == Ok::<Seq<u8>, ErrorView>(data),
        address_of(seq!['0', 'x'] + hex_text(data)) == Ok::<Seq<u8>, ErrorView>(data),
        address_of(seq!['0', 'X'] + hex_text(data)) == Ok::<Seq<u8>, ErrorView>(data),
        forall|text: Seq<char>| #[trigger] address_of(text) is Ok <==> is_address_text(text),
        forall|text: Seq<char>|
            #[trigger] address_of(text) is Ok ==> address_of(text)->Ok_0 == hex_value(
                without_prefix(text),
            ),
        forall|text: Seq<char>|
            #[trigger] address_of(text) is Err ==> address_of(text)->Err_0 is Parse,
{
    let text = hex_text(data);
    law_hex_round_trip(data);
    assert(is_hex_digit(text[1]));
    assert((seq!['0', 'x'] + text).skip(2) =~= text);
    assert((seq!['0', 'X'] + text).skip(2) =~= text);
}

/// A private key is the first 32 of the bytes in the digits, with any number of marks before them;
/// fewer bytes are refused.
pub proof fn law_private_key(data: Seq<u8>, text: Seq<char>)
    ensures
        data.len() >= 32 ==> private_key_of(hex_text(data)) == Ok::<Seq<u8>, ErrorView>(
            data.subrange(0, 32),
        ),
        data.len() < 32 ==> private_key_of(hex_text(data)) is Err,
        private_key_of(seq!['0', 'x'] + text) == private_key_of(text),
        private_key_of(text) is Ok <==> is_hex(without_hex_marks(text)) && without_hex_marks(
            text,
        ).len() >= 64,
        private_key_of(text) matches Ok(key) ==> key == hex_value(without_hex_marks(text)).subrange(
            0,
            32,
        ),
        private_key_of(text) matches Err(error) ==> error is Parse,
{
    law_hex_round_trip(data);
    law_marked_hex(data);
    law_hex_marks(text);
}

/// The arguments are accepted exactly when the address, the relay, where one is to be used, and the
/// private key all are; then each comes from its own argument, and the relay only where it is asked
/// for. Of several wrong arguments the first, in this order, is reported.
pub proof fn law_settings(args: HypernodeArgs)
    ensures
        match settings_of(args) {
            Ok(settings) => {
                &&& address_of(args.rift_exchange_address@) == Ok::<Seq<u8>, ErrorView>(
                    settings.rift_exchange_address,
                )
                &&& private_key_of(args.private_key@) == Ok::<Seq<u8>, ErrorView>(
                    settings.private_key,
                )
                &&& !args.flashbots ==> settings.flashbots_url is None
                &&& args.flashbots ==> {
                    &&& args.flashbots_relay_rpc matches Some(url)
                    &&& settings.flashbots_url == Some(url@)
                }
            },
            Err(error) => {
                ||| address_of(args.rift_exchange_address@) == Err::<Seq<u8>, ErrorView>(error)
                ||| {
                    &&& address_of(args.rift_exchange_address@) is Ok
                    &&& args.flashbots && args.flashbots_relay_rpc is None
                    &&& error is Config
                }
                ||| {
                    &&& address_of(args.rift_exchange_address@) is Ok
                    &&& !args.flashbots || args.flashbots_relay_rpc is Some
                    &&& private_key_of(args.private_key@) == Err::<Seq<u8>, ErrorView>(error)
                }
            },
        },
{
}

} // verus!
