//! The decisions of the indexer's ledger reads: which storage key each read
//! asks for, what an RPC answer holds, and what each read returns.

use vstd::prelude::*;

use crate::backend::error::{AppError, AppErrorView};
use crate::backend::scval::{
    decode_address_vec, decode_address_vec_result, decode_bytes_vec, decode_bytes_vec_result,
    decode_event_metadata, decode_event_metadata_result, encodes_key, key_event_meta,
    key_event_owners, key_events, key_user_badges, metadata_view, parse_id_hex,
    parse_id_hex_result, texts_view, ScValue,
};
use crate::backend::xdr::{ledger_entry_from_base64, xdr_ledger_entry};
use crate::backend::strkey::{account_strkey_key, contract_strkey_key, parse_account_strkey, parse_contract_strkey};
use crate::contract::storage::DataKey;
use crate::contract::types::{Address, EventMetadata};
use vstd::string::{StringExecFns, StringSliceAdditionalSpecFns};

verus! {

/// A ledger entry as the RPC returns it: a contract-storage entry carries
/// its value; the indexer reads no other kind of entry.
#[derive(Debug, PartialEq, Eq)]
pub enum LedgerEntry {
    ContractData(ScValue),
    Other,
}

/// The contract id that a `C...` strkey names; `BadRequest` when the text
/// is not a contract strkey.
pub fn parse_contract_id(contract_id: &str) -> (r: Result<[u8; 32], AppError>)
    ensures
        match contract_strkey_key(contract_id@) {
            Some(h) => r == Ok::<[u8; 32], AppError>(h),
            None => r matches Err(e) && e@ == AppErrorView::BadRequest(
                "invalid CONTRACT_ID strkey"@,
            ),
        },
{
    match parse_contract_strkey(contract_id) {
        Some(h) => Ok(h),
        None => Err(AppError::BadRequest("invalid CONTRACT_ID strkey".to_owned())),
    }
}

/// The first entry of a `getLedgerEntries` answer, as base64 XDR: `Rpc`
/// when the answer is an error, `None` when it holds no entry.
pub fn entry_from_response(error: Option<String>, entries: Option<Vec<String>>) -> (r: Result<
    Option<String>,
    AppError,
>)
    ensures
        match error {
            Some(m) => r matches Err(e) && e@ == AppErrorView::Rpc(m@),
            None => match entries {
                Some(es) if es@.len() > 0 => r == Ok::<Option<String>, AppError>(Some(es@[0])),
                _ => r == Ok::<Option<String>, AppError>(None),
            },
        },
{
    if let Some(m) = error {
        return Err(AppError::Rpc(m));
    }
    let mut entries = match entries {
        Some(es) => es,
        None => Vec::new(),
    };
    if entries.len() == 0 {
        Ok(None)
    } else {
        Ok(Some(entries.remove(0)))
    }
}

/// The stored value a decoded ledger entry carries: `Decode` when the XDR
/// did not decode (with the decoder's message) or when the entry is not
/// contract data.
pub fn entry_value(decoded: Result<LedgerEntry, String>) -> (r: Result<ScValue, AppError>)
    ensures
        match decoded {
            Ok(LedgerEntry::ContractData(v)) => r == Ok::<ScValue, AppError>(v),
            Ok(LedgerEntry::Other) => r matches Err(e) && e@ == AppErrorView::Decode(
                "not contract data"@,
            ),
            Err(m) => r matches Err(e) && e@ == AppErrorView::Decode(
                "ledger entry xdr: "@ + m@,
            ),
        },
{
    match decoded {
        Ok(LedgerEntry::ContractData(v)) => Ok(v),
        Ok(LedgerEntry::Other) => Err(AppError::Decode("not contract data".to_owned())),
        Err(m) => {
            let mut msg = "ledger entry xdr: ".to_owned();
            msg.append(m.as_str());
            Err(AppError::Decode(msg))
        },
    }
}

/// The stored value that a `getLedgerEntries` answer gives for the one key
/// asked: `Rpc` when the answer is an error, `None` when it holds no entry,
/// else the first entry's base64 XDR decoded, which must be contract data.
pub fn value_from_response(error: Option<String>, entries: Option<Vec<String>>) -> (r: Result<
    Option<ScValue>,
    AppError,
>)
    ensures
        match error {
            Some(m) => r matches Err(e) && e@ == AppErrorView::Rpc(m@),
            None => match entries {
                Some(es) if es@.len() > 0 => match xdr_ledger_entry(es@[0]@) {
                    Ok(LedgerEntry::ContractData(v)) => r == Ok::<Option<ScValue>, AppError>(
                        Some(v),
                    ),
                    Ok(LedgerEntry::Other) => r matches Err(e) && e@ == AppErrorView::Decode(
                        "not contract data"@,
                    ),
                    Err(m) => r matches Err(e) && e@ == AppErrorView::Decode(
                        "ledger entry xdr: "@ + m,
                    ),
                },
                _ => r == Ok::<Option<ScValue>, AppError>(None),
            },
        },
{
    match entry_from_response(error, entries)? {
        Some(xdr) => match entry_value(ledger_entry_from_base64(xdr.as_str())) {
            Ok(v) => Ok(Some(v)),
            Err(e) => Err(e),
        },
        None => Ok(None),
    }
}

/// The storage key that the event list is read from.
pub fn events_request() -> (r: Result<ScValue, AppError>)
    ensures
        r matches Ok(v) && encodes_key(v, DataKey::Events),
{
    key_events()
}

/// The storage key that an event's metadata is read from, for an id in
/// hexadecimal; `BadRequest` when the id does not parse.
pub fn event_meta_request(id_hex: &str) -> (r: Result<ScValue, AppError>)
    ensures
        match parse_id_hex_result(id_hex.spec_bytes()) {
            Ok(id) => r matches Ok(v) && exists|a: [u8; 32]| a@ == id && encodes_key(v, DataKey::EventMeta(a)),
            Err(ev) => r matches Err(e) && e@ == ev,
        },
{
    let id = parse_id_hex(id_hex)?;
    key_event_meta(id)
}

/// The storage key that an event's collectors are read from, for an id in
/// hexadecimal; `BadRequest` when the id does not parse.
pub fn event_owners_request(id_hex: &str) -> (r: Result<ScValue, AppError>)
    ensures
        match parse_id_hex_result(id_hex.spec_bytes()) {
            Ok(id) => r matches Ok(v) && exists|a: [u8; 32]| a@ == id && encodes_key(v, DataKey::EventOwners(a)),
            Err(ev) => r matches Err(e) && e@ == ev,
        },
{
    let id = parse_id_hex(id_hex)?;
    key_event_owners(id)
}

/// The storage key that an account's badges are read from, for a `G...`
/// strkey; `BadRequest` when the text is not an account strkey.
pub fn user_badges_request(account: &str) -> (r: Result<ScValue, AppError>)
    ensures
        match account_strkey_key(account@) {
            Some(k) => r matches Ok(v) && encodes_key(v, DataKey::UserBadges(Address::Account(k))),
            None => r matches Err(e) && e@ == AppErrorView::BadRequest("invalid account strkey"@),
        },
{
    match parse_account_strkey(account) {
        Some(k) => key_user_badges(k),
        None => Err(AppError::BadRequest("invalid account strkey".to_owned())),
    }
}

/// The event ids of a stored id list (the event list, or an account's
/// badges); none when nothing is stored.
pub fn ids_from_value(value: Option<ScValue>) -> (r: Result<Vec<String>, AppError>)
    ensures
        match value {
            Some(v) => texts_view(r) == decode_bytes_vec_result(v),
            None => r matches Ok(ids) && ids@.len() == 0,
        },
{
    match value {
        Some(v) => decode_bytes_vec(&v),
        None => Ok(Vec::new()),
    }
}

/// The collectors of a stored collector list; none when nothing is stored.
pub fn owners_from_value(value: Option<ScValue>) -> (r: Result<Vec<String>, AppError>)
    ensures
        match value {
            Some(v) => texts_view(r) == decode_address_vec_result(v),
            None => r matches Ok(owners) && owners@.len() == 0,
        },
{
    match value {
        Some(v) => decode_address_vec(&v),
        None => Ok(Vec::new()),
    }
}

/// The metadata of a stored event; `NotFound` when nothing is stored.
pub fn event_from_value(value: Option<ScValue>) -> (r: Result<EventMetadata, AppError>)
    ensures
        match value {
            Some(v) => metadata_view(r) == decode_event_metadata_result(v),
            None => r == Err::<EventMetadata, AppError>(AppError::NotFound),
        },
{
    match value {
        Some(v) => decode_event_metadata(&v),
        None => Err(AppError::NotFound),
    }
}

} // verus!
