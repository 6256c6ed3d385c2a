use stellar_xdr::curr::{
    AccountId, ContractDataDurability, ContractDataEntry, ContractId, ExtensionPoint,
    LedgerEntryData, LedgerKey, LedgerKeyContractData, Limits, PublicKey, ScAddress, ScBytes,
    ScMap, ScSymbol, ScVal, ScVec, TtlEntry, Uint256, WriteXdr,
};

use poap_badge::backend::error::AppError;
use poap_badge::backend::rpc::{ids_from_value, value_from_response};
use poap_badge::backend::scval::{key_events, key_user_badges, ScMapEntry, ScValue};
use poap_badge::backend::xdr::ledger_key_base64;
use poap_badge::contract::types::Address;

fn xdr_symbol(s: &str) -> ScVal {
    ScVal::Symbol(ScSymbol(s.as_bytes().to_vec().try_into().unwrap()))
}

fn xdr_bytes(b: [u8; 32]) -> ScVal {
    ScVal::Bytes(ScBytes(b.to_vec().try_into().unwrap()))
}

fn contract_entry(val: ScVal) -> String {
    LedgerEntryData::ContractData(ContractDataEntry {
        ext: ExtensionPoint::V0,
        contract: ScAddress::Contract(ContractId(stellar_xdr::curr::Hash([1; 32]))),
        key: ScVal::Vec(Some(ScVec(vec![xdr_symbol("Events")].try_into().unwrap()))),
        durability: ContractDataDurability::Persistent,
        val,
    })
    .to_xdr_base64(Limits::none())
    .unwrap()
}

#[test]
fn ledger_keys_encode_as_stellar_xdr_does() {
    let expected = LedgerKey::ContractData(LedgerKeyContractData {
        contract: ScAddress::Contract(ContractId(stellar_xdr::curr::Hash([1; 32]))),
        key: ScVal::Vec(Some(ScVec(vec![xdr_symbol("Events")].try_into().unwrap()))),
        durability: ContractDataDurability::Persistent,
    })
    .to_xdr_base64(Limits::none())
    .unwrap();
    assert_eq!(ledger_key_base64([1; 32], key_events().unwrap()), Ok(expected));

    let account = ScVal::Address(ScAddress::Account(AccountId(PublicKey::PublicKeyTypeEd25519(
        Uint256([4; 32]),
    ))));
    let expected = LedgerKey::ContractData(LedgerKeyContractData {
        contract: ScAddress::Contract(ContractId(stellar_xdr::curr::Hash([9; 32]))),
        key: ScVal::Vec(Some(ScVec(vec![xdr_symbol("UserBadges"), account].try_into().unwrap()))),
        durability: ContractDataDurability::Persistent,
    })
    .to_xdr_base64(Limits::none())
    .unwrap();
    assert_eq!(ledger_key_base64([9; 32], key_user_badges([4; 32]).unwrap()), Ok(expected));
}

#[test]
fn values_without_xdr_form_are_refused() {
    assert!(matches!(ledger_key_base64([1; 32], ScValue::Other), Err(AppError::Decode(_))));
    let long_symbol = ScValue::Vec(Some(vec![ScValue::Symbol(vec![b'a'; 33])]));
    assert!(matches!(ledger_key_base64([1; 32], long_symbol), Err(AppError::Decode(_))));
}

#[test]
fn contract_data_entries_decode_to_their_value() {
    let val = ScVal::Vec(Some(ScVec(vec![xdr_bytes([0xaa; 32])].try_into().unwrap())));
    let b64 = contract_entry(val);
    let value = value_from_response(None, Some(vec![b64])).unwrap();
    assert_eq!(value, Some(ScValue::Vec(Some(vec![ScValue::Bytes(vec![0xaa; 32])]))));
    assert_eq!(ids_from_value(value), Ok(vec!["aa".repeat(32)]));
}

#[test]
fn maps_and_addresses_decode_variant_for_variant() {
    let map = ScVal::Map(Some(ScMap(
        vec![stellar_xdr::curr::ScMapEntry {
            key: xdr_symbol("k"),
            val: ScVal::Address(ScAddress::Contract(ContractId(stellar_xdr::curr::Hash([3; 32])))),
        }]
        .try_into()
        .unwrap(),
    )));
    assert_eq!(
        value_from_response(None, Some(vec![contract_entry(map)])),
        Ok(Some(ScValue::Mapping(Some(vec![ScMapEntry {
            key: ScValue::Symbol(b"k".to_vec()),
            val: ScValue::Address(Address::Contract([3; 32])),
        }]))))
    );
    assert_eq!(
        value_from_response(None, Some(vec![contract_entry(ScVal::U32(5))])),
        Ok(Some(ScValue::Other))
    );
}

#[test]
fn other_entries_and_bad_xdr_are_refused() {
    let ttl = LedgerEntryData::Ttl(TtlEntry { key_hash: stellar_xdr::curr::Hash([0; 32]), live_until_ledger_seq: 5 })
        .to_xdr_base64(Limits::none())
        .unwrap();
    assert_eq!(
        value_from_response(None, Some(vec![ttl])),
        Err(AppError::Decode("not contract data".to_string()))
    );
    match value_from_response(None, Some(vec!["not base64!".to_string()])) {
        Err(AppError::Decode(m)) => assert!(m.starts_with("ledger entry xdr: ")),
        other => panic!("unexpected {other:?}"),
    }
    assert_eq!(
        value_from_response(Some("boom".to_string()), None),
        Err(AppError::Rpc("boom".to_string()))
    );
    assert_eq!(value_from_response(None, Some(vec![])), Ok(None));
}
