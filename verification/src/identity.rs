//! The two texts that open a session: the signing key of the trading
//! identity and the address of the wallet that funds it.

use vstd::prelude::*;

verus! {

/// The text can be read as a signing key: 32 bytes in hexadecimal that make a
/// valid secp256k1 secret.
pub uninterp spec fn is_signing_key(text: Seq<char>) -> bool;

/// The character is a hexadecimal digit, in either case.
pub open spec fn is_hex_digit(c: char) -> bool {
    ||| '0' <= c <= '9'
    ||| 'a' <= c <= 'f'
    ||| 'A' <= c <= 'F'
}

/// The text starts with `0x` or `0X`.
pub open spec fn has_hex_prefix(text: Seq<char>) -> bool {
    text.len() >= 2 && text[0] == '0' && (text[1] == 'x' || text[1] == 'X')
}

/// The digits of a hexadecimal text: what follows the prefix if there is
/// one, else the whole text.
pub open spec fn hex_body(text: Seq<char>) -> Seq<char> {
    if has_hex_prefix(text) {
        text.skip(2)
    } else {
        text
    }
}

/// The text can be read as a wallet address: 20 bytes in hexadecimal, that
/// is exactly 40 hexadecimal digits, with or without a leading `0x` or `0X`.
/// Upper and lower case may be mixed; no checksum is asked for.
pub open spec fn is_wallet_address(text: Seq<char>) -> bool {
    &&& hex_body(text).len() == 40
    &&& forall|i: int| 0 <= i < 40 ==> is_hex_digit(#[trigger] hex_body(text)[i])
}

/// Calls `from_str` of `alloy::signers::local::LocalSigner` over a
/// `k256::ecdsa::SigningKey` and tells whether it gave a signer. The signer
/// itself is dropped. The contract names the answer.
#[verifier::external_body]
pub(crate) fn signing_key_parses(text: &str) -> (ok: bool)
    ensures
        ok == is_signing_key(text@),
{
    text.parse::<alloy::signers::local::LocalSigner<k256::ecdsa::SigningKey>>().is_ok()
}

/// Calls `from_str` of `alloy::primitives::Address` and tells whether it gave
/// an address. The parser hands the text to the hexadecimal decoder for a
/// fixed array of 20 bytes, which refuses an odd number of bytes, drops a
/// leading `0x` or `0X`, and then asks for exactly 40 hexadecimal digits;
/// the contract says so.
#[verifier::external_body]
pub(crate) fn wallet_address_parses(text: &str) -> (ok: bool)
    ensures
        ok == is_wallet_address(text@),
{
    text.parse::<alloy::primitives::Address>().is_ok()
}

} // verus!
