//! The ledger's XDR wire format, through the `stellar_xdr` crate: storage
//! keys encoded for a `getLedgerEntries` request, and the ledger entries of
//! its answer decoded.

use vstd::prelude::*;

use stellar_xdr::curr::{
    AccountId, ContractDataDurability, ContractId, LedgerEntryData, LedgerKey,
    LedgerKeyContractData, Limits, PublicKey, ReadXdr, ScAddress, ScBytes, ScMap, ScString,
    ScSymbol, ScVal, ScVec, Uint256, WriteXdr,
};

use crate::backend::error::{AppError, AppErrorView};
use crate::backend::rpc::LedgerEntry;
use crate::backend::scval::{ledger_key, text_view, ContractDataKey, Durability, ScMapEntry, ScValue};
use crate::contract::types::Address;

verus! {

/// `stellar_xdr`'s ledger value, carried through unread.
#[verifier::external_type_specification]
#[verifier::external_body]
pub struct ExXdrValue(ScVal);

/// `stellar_xdr`'s address, carried through unread.
#[verifier::external_type_specification]
#[verifier::external_body]
pub struct ExXdrAddress(ScAddress);

/// The library's form of a `stellar_xdr` value, variant for variant; kinds
/// of value the indexer never reads become `Other`.
#[verifier::external_body]
fn value_from_xdr(v: &ScVal) -> ScValue {
    match v {
        ScVal::Bytes(b) => ScValue::Bytes(b.0.to_vec()),
        ScVal::String(s) => ScValue::String(s.0.to_vec()),
        ScVal::Symbol(s) => ScValue::Symbol(s.0.to_vec()),
        ScVal::Address(a) => address_from_xdr(a),
        ScVal::Vec(v) => ScValue::Vec(v.as_ref().map(|v| v.0.iter().map(value_from_xdr).collect())),
        ScVal::Map(m) => ScValue::Mapping(m.as_ref().map(|m| m.0.iter().map(|e| ScMapEntry { key: value_from_xdr(&e.key), val: value_from_xdr(&e.val) }).collect())),
        _ => ScValue::Other,
    }
}

/// The library's form of a `stellar_xdr` address: accounts and contracts;
/// other kinds of address become `Other`.
#[verifier::external_body]
fn address_from_xdr(a: &ScAddress) -> ScValue {
    match a {
        ScAddress::Account(AccountId(PublicKey::PublicKeyTypeEd25519(Uint256(k)))) => ScValue::Address(Address::Account(*k)),
        ScAddress::Contract(ContractId(h)) => ScValue::Address(Address::Contract(h.0)),
        _ => ScValue::Other,
    }
}

/// The `stellar_xdr` form of a library value, variant for variant; `None`
/// for `Other`, which stands for no value in particular, and for a value
/// over one of XDR's length bounds.
#[verifier::external_body]
fn value_to_xdr(v: &ScValue) -> Option<ScVal> {
    match v {
        ScValue::Bytes(b) => Some(ScVal::Bytes(ScBytes(b.clone().try_into().ok()?))),
        ScValue::String(s) => Some(ScVal::String(ScString(s.clone().try_into().ok()?))),
        ScValue::Symbol(s) => Some(ScVal::Symbol(ScSymbol(s.clone().try_into().ok()?))),
        ScValue::Address(a) => Some(ScVal::Address(address_to_xdr(a))),
        ScValue::Vec(None) => Some(ScVal::Vec(None)),
        ScValue::Vec(Some(items)) => vec_to_xdr(items),
        ScValue::Mapping(None) => Some(ScVal::Map(None)),
        ScValue::Mapping(Some(es)) => map_to_xdr(es),
        ScValue::Other => None,
    }
}

/// The `stellar_xdr` form of a library address.
#[verifier::external_body]
fn address_to_xdr(a: &Address) -> ScAddress {
    match a {
        Address::Account(k) => ScAddress::Account(AccountId(PublicKey::PublicKeyTypeEd25519(Uint256(*k)))),
        Address::Contract(h) => ScAddress::Contract(ContractId(stellar_xdr::curr::Hash(*h))),
    }
}

/// The `stellar_xdr` vector of library items; `None` when an item has no
/// XDR form or the vector is over its length bound.
#[verifier::external_body]
fn vec_to_xdr(items: &Vec<ScValue>) -> Option<ScVal> {
    let items: Vec<ScVal> = items.iter().map(value_to_xdr).collect::<Option<Vec<ScVal>>>()?;
    Some(ScVal::Vec(Some(ScVec(items.try_into().ok()?))))
}

/// The `stellar_xdr` map of library entries; `None` when an entry has no
/// XDR form or the map is over its length bound.
#[verifier::external_body]
fn map_to_xdr(es: &Vec<ScMapEntry>) -> Option<ScVal> {
    let es: Vec<stellar_xdr::curr::ScMapEntry> = es.iter().map(|e| Some(stellar_xdr::curr::ScMapEntry { key: value_to_xdr(&e.key)?, val: value_to_xdr(&e.val)? })).collect::<Option<Vec<_>>>()?;
    Some(ScVal::Map(Some(ScMap(es.try_into().ok()?))))
}

/// What `stellar_xdr` makes of a base64 XDR `LedgerEntryData`: the entry,
/// in the library's form, or the decoder's message.
pub uninterp spec fn xdr_ledger_entry(xdr: Seq<char>) -> Result<LedgerEntry, Seq<char>>;

/// `LedgerEntryData::from_xdr_base64` without limits: the ledger entry that
/// the base64 text encodes (a contract-data entry with its value converted
/// to the library's form, any other kind as `Other`), or the decoder's
/// message. Which texts decode, and to what, is left to the name
/// `xdr_ledger_entry`.
#[verifier::external_body]
pub(crate) fn ledger_entry_from_base64(xdr: &str) -> (r: Result<LedgerEntry, String>)
    ensures
        match r {
            Ok(e) => xdr_ledger_entry(xdr@) == Ok::<LedgerEntry, Seq<char>>(e),
            Err(m) => xdr_ledger_entry(xdr@) == Err::<LedgerEntry, Seq<char>>(m@),
        },
{
    match LedgerEntryData::from_xdr_base64(xdr, Limits::none()) {
        Ok(LedgerEntryData::ContractData(cd)) => Ok(LedgerEntry::ContractData(value_from_xdr(&cd.val))),
        Ok(_) => Ok(LedgerEntry::Other),
        Err(e) => Err(e.to_string()),
    }
}

/// Whether `v` has an XDR form nested at most `depth` values deep: it holds
/// no `Other`, no symbol over 32 bytes, and no byte string, string, vector
/// or map over the `u32::MAX` items XDR counts.
pub open spec fn xdr_fits(v: ScValue, depth: nat) -> bool
    decreases v,
{
    depth > 0 && match v {
        ScValue::Bytes(b) => b@.len() <= u32::MAX,
        ScValue::String(b) => b@.len() <= u32::MAX,
        ScValue::Symbol(b) => b@.len() <= 32,
        ScValue::Address(_) => true,
        ScValue::Vec(None) => true,
        ScValue::Vec(Some(items)) => items@.len() <= u32::MAX && forall|i: int|
            0 <= i < items@.len() ==> #[trigger] xdr_fits(items@[i], (depth - 1) as nat),
        ScValue::Mapping(None) => true,
        ScValue::Mapping(Some(es)) => es@.len() <= u32::MAX && forall|i: int|
            0 <= i < es@.len() ==> xdr_fits(#[trigger] es@[i].key, (depth - 1) as nat)
                && xdr_fits(es@[i].val, (depth - 1) as nat),
        ScValue::Other => false,
    }
}

/// What `stellar_xdr` makes of a contract-data ledger key: its base64 XDR,
/// or why it has none.
pub uninterp spec fn xdr_ledger_key(key: ContractDataKey) -> Result<Seq<char>, Seq<char>>;

/// `LedgerKey::to_xdr_base64` without limits, for the
/// `LedgerKey::ContractData` that `k` is, converted field for field: the
/// base64 XDR text, or `Decode` with the reason there is none. The text
/// itself is left to the name `xdr_ledger_key`. The source fails only past
/// its depth limit (`u32::MAX` nested writes under `Limits::none()`) or its
/// byte limit (`usize::MAX`), and the conversion only where `xdr_fits`
/// does not hold; so a storage key that fits, nested at most 1000 deep,
/// is encoded.
#[verifier::external_body]
pub(crate) fn encode_ledger_key(k: &ContractDataKey) -> (r: Result<String, AppError>)
    ensures
        text_view(r) == match xdr_ledger_key(*k) {
            Ok(s) => Ok::<Seq<char>, AppErrorView>(s),
            Err(m) => Err::<Seq<char>, AppErrorView>(AppErrorView::Decode(m)),
        },
        xdr_fits(k.key, 1000) ==> r is Ok,
{
    let key = match value_to_xdr(&k.key) {
        Some(v) => v,
        None => return Err(AppError::Decode("xdr encode: value has no XDR form".to_owned())),
    };
    let durability = match k.durability {
        Durability::Temporary => ContractDataDurability::Temporary,
        Durability::Persistent => ContractDataDurability::Persistent,
    };
    let contract = address_to_xdr(&k.contract);
    LedgerKey::ContractData(LedgerKeyContractData { contract, key, durability })
        .to_xdr_base64(Limits::none())
        .map_err(|e| AppError::Decode(format!("xdr encode: {e}")))
}

/// The base64 XDR of the persistent ledger key under which contract
/// `contract` stores `key` (see [`ledger_key`]).
pub fn ledger_key_base64(contract: [u8; 32], key: ScValue) -> (r: Result<String, AppError>)
    ensures
        text_view(r) == match xdr_ledger_key(
            ContractDataKey {
                contract: Address::Contract(contract),
                key,
                durability: Durability::Persistent,
            },
        ) {
            Ok(s) => Ok::<Seq<char>, AppErrorView>(s),
            Err(m) => Err::<Seq<char>, AppErrorView>(AppErrorView::Decode(m)),
        },
        xdr_fits(key, 1000) ==> r is Ok,
{
    encode_ledger_key(&ledger_key(contract, key))
}

} // verus!
