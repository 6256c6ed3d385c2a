use poap_badge::backend::scval::{
    bytes32, decode_address_vec, decode_bytes_vec, decode_event_metadata, hex, key_event_meta,
    key_events, key_user_badges, parse_id_hex, sc_vec, symbol, ScMapEntry, ScValue,
};
use poap_badge::backend::xdr::ledger_key_base64;
use poap_badge::contract::types::Address;

fn scstring(s: &str) -> ScValue {
    ScValue::String(s.as_bytes().to_vec())
}

#[test]
fn id_hex_roundtrip() {
    let id = [7u8; 32];
    let h = hex(&id);
    assert_eq!(h.len(), 64);
    assert_eq!(parse_id_hex(&h).unwrap(), id);
}

#[test]
fn parse_id_rejects_bad_length() {
    assert!(parse_id_hex("abcd").is_err());
}

#[test]
fn keys_encode_to_base64() {
    // deterministic, contract-independent: just must not panic and be non-empty
    let b64 = ledger_key_base64([1u8; 32], key_events().unwrap()).unwrap();
    assert!(!b64.is_empty());
    let _ = ledger_key_base64([1u8; 32], key_event_meta([2u8; 32]).unwrap()).unwrap();
    let _ = ledger_key_base64([1u8; 32], key_user_badges([3u8; 32]).unwrap()).unwrap();
}

#[test]
fn decode_metadata_from_map() {
    let entries = vec![
        ScMapEntry { key: symbol("name").unwrap(), val: scstring("Meridian 2025") },
        ScMapEntry { key: symbol("description").unwrap(), val: scstring("Attended") },
        ScMapEntry { key: symbol("image_ipfs").unwrap(), val: scstring("ipfs://Qm") },
    ];
    let map = ScValue::Mapping(Some(entries));
    let meta = decode_event_metadata(&map).unwrap();
    assert_eq!(meta.name, "Meridian 2025");
    assert_eq!(meta.description, "Attended");
    assert_eq!(meta.image_ipfs, "ipfs://Qm");
}

#[test]
fn decode_bytes_vec_of_ids() {
    let v = sc_vec(vec![bytes32([0xaa; 32]).unwrap(), bytes32([0xbb; 32]).unwrap()]).unwrap();
    let ids = decode_bytes_vec(&v).unwrap();
    assert_eq!(ids.len(), 2);
    assert_eq!(ids[0], "aa".repeat(32));
    assert_eq!(ids[1], "bb".repeat(32));
}

#[test]
fn decode_empty_vec() {
    assert!(decode_bytes_vec(&ScValue::Vec(None)).unwrap().is_empty());
    assert!(decode_address_vec(&ScValue::Vec(None)).unwrap().is_empty());
}

#[test]
fn decode_address_vec_strkeys() {
    let addr = ScValue::Address(Address::Account([0u8; 32]));
    let v = sc_vec(vec![addr]).unwrap();
    let out = decode_address_vec(&v).unwrap();
    assert_eq!(out.len(), 1);
    assert!(out[0].starts_with('G'));
}
