//! Stellar strkeys (`G...` accounts, `C...` contracts), through the
//! `stellar_strkey` crate.

use vstd::prelude::*;

verus! {

/// The strkey text `stellar_strkey` gives an ed25519 account key.
pub uninterp spec fn account_strkey_text(key: Seq<u8>) -> Seq<char>;

/// The key `stellar_strkey` reads from an account strkey, if it is one.
pub uninterp spec fn account_strkey_key(text: Seq<char>) -> Option<[u8; 32]>;

/// The strkey text `stellar_strkey` gives a contract id.
pub uninterp spec fn contract_strkey_text(hash: Seq<u8>) -> Seq<char>;

/// The contract id `stellar_strkey` reads from a contract strkey, if it is
/// one.
pub uninterp spec fn contract_strkey_key(text: Seq<char>) -> Option<[u8; 32]>;

/// `stellar_strkey::ed25519::PublicKey::to_string`: the 56-character
/// base32 strkey of the key, which begins with `G` (the version byte of
/// ed25519 public keys) and which `PublicKey::from_string` reads back to
/// the same key.
#[verifier::external_body]
pub fn account_strkey(key: &[u8; 32]) -> (r: String)
    ensures
        r@ == account_strkey_text(key@),
        r@.len() == 56,
        r@[0] == 'G',
        account_strkey_key(r@) == Some(*key),
{
    String::from(stellar_strkey::ed25519::PublicKey(*key).to_string().as_str())
}

/// `stellar_strkey::ed25519::PublicKey::from_string`: the key an account
/// strkey encodes, or `None` when the text is not a valid account strkey.
/// Which texts are valid (base32 alphabet, length, version byte, CRC16
/// checksum) is left to the named function.
#[verifier::external_body]
pub fn parse_account_strkey(text: &str) -> (r: Option<[u8; 32]>)
    ensures
        r == account_strkey_key(text@),
{
    match stellar_strkey::ed25519::PublicKey::from_string(text) {
        Ok(k) => Some(k.0),
        Err(_) => None,
    }
}

/// `stellar_strkey::Contract::to_string`: the 56-character base32 strkey
/// of the contract id, which begins with `C` and which
/// `Contract::from_string` reads back to the same id.
#[verifier::external_body]
pub fn contract_strkey(hash: &[u8; 32]) -> (r: String)
    ensures
        r@ == contract_strkey_text(hash@),
        r@.len() == 56,
        r@[0] == 'C',
        contract_strkey_key(r@) == Some(*hash),
{
    String::from(stellar_strkey::Contract(*hash).to_string().as_str())
}

/// `stellar_strkey::Contract::from_string`: the contract id a contract
/// strkey encodes, or `None` when the text is not a valid contract strkey.
#[verifier::external_body]
pub fn parse_contract_strkey(text: &str) -> (r: Option<[u8; 32]>)
    ensures
        r == contract_strkey_key(text@),
{
    match stellar_strkey::Contract::from_string(text) {
        Ok(c) => Some(c.0),
        Err(_) => None,
    }
}

} // verus!
