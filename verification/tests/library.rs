use poap_badge::backend::config::{parse_u16, Config};
use poap_badge::backend::domain::Event;
use poap_badge::backend::error::AppError;
use poap_badge::backend::rpc::{
    entry_from_response, entry_value, event_from_value, event_meta_request, event_owners_request,
    events_request, ids_from_value, owners_from_value, parse_contract_id, user_badges_request,
    LedgerEntry,
};
use poap_badge::backend::scval::{
    decode_address_vec, decode_bytes_vec, decode_event_metadata, hex, key_event_meta,
    key_event_owners, key_events, key_user_badges, ledger_key, parse_id_hex, sc_vec, symbol,
    ContractDataKey, Durability, ScMapEntry, ScValue,
};
use poap_badge::backend::strkey::{
    account_strkey, contract_strkey, parse_account_strkey, parse_contract_strkey,
};
use poap_badge::contract::error::Error;
use poap_badge::contract::storage::Env;
use poap_badge::contract::types::{Address, BadgeInfo, EventMetadata};
use poap_badge::contract::PoapBadge;

fn sym(s: &str) -> ScValue {
    ScValue::Symbol(s.as_bytes().to_vec())
}

fn text(s: &str) -> ScValue {
    ScValue::String(s.as_bytes().to_vec())
}

fn entry(k: ScValue, v: ScValue) -> ScMapEntry {
    ScMapEntry { key: k, val: v }
}

fn meta(name: &str, description: &str, image: &str) -> EventMetadata {
    EventMetadata {
        name: name.to_string(),
        description: description.to_string(),
        image_ipfs: image.to_string(),
    }
}

fn registry() -> Env {
    Env::new(Address::Contract([0xEE; 32]))
}

// ---------------------------------------------------------------- registry

#[test]
fn error_codes_are_stable() {
    assert_eq!(Error::EventAlreadyExists.code(), 1);
    assert_eq!(Error::EventNotFound.code(), 2);
    assert_eq!(Error::BadgeAlreadyMinted.code(), 3);
}

#[test]
fn fresh_registry_is_empty() {
    let env = registry();
    assert!(PoapBadge::list_events(&env).is_empty());
    assert!(PoapBadge::list_all_badges(&env).is_empty());
    assert!(env.auths().is_empty());
    assert_eq!(PoapBadge::total_badges(&env, Address::Account([1; 32])), 0);
}

#[test]
fn created_event_reads_back_exactly() {
    let mut env = registry();
    let org = Address::Account([9; 32]);
    PoapBadge::create_event(&mut env, [4; 32], org, "N".into(), "D".into(), "ipfs://I".into())
        .unwrap();
    assert_eq!(PoapBadge::get_event(&env, [4; 32]), Ok(meta("N", "D", "ipfs://I")));
    assert_eq!(PoapBadge::list_events(&env), vec![[4u8; 32]]);
}

#[test]
fn duplicate_create_keeps_first_metadata() {
    let mut env = registry();
    let org = Address::Account([9; 32]);
    let other = Address::Account([8; 32]);
    PoapBadge::create_event(&mut env, [4; 32], org, "first".into(), "".into(), "".into()).unwrap();
    assert_eq!(
        PoapBadge::create_event(&mut env, [4; 32], other, "second".into(), "".into(), "".into()),
        Err(Error::EventAlreadyExists)
    );
    assert_eq!(PoapBadge::get_event(&env, [4; 32]).unwrap().name, "first");
    assert_eq!(PoapBadge::list_events(&env).len(), 1);
    // the refused invocation still required the caller's authorization
    let auths = env.auths();
    assert_eq!(auths.len(), 1);
    assert_eq!(auths[0].address, other);
}

#[test]
fn mint_of_unknown_event_requires_no_authorization() {
    let mut env = registry();
    let org = Address::Account([9; 32]);
    PoapBadge::create_event(&mut env, [4; 32], org, "N".into(), "D".into(), "I".into()).unwrap();
    assert_eq!(
        PoapBadge::mint_badge(&mut env, [5; 32], Address::Account([1; 32])),
        Err(Error::EventNotFound)
    );
    assert!(env.auths().is_empty());
}

#[test]
fn mint_authorization_names_the_function() {
    let mut env = registry();
    let org = Address::Contract([9; 32]);
    PoapBadge::create_event(&mut env, [4; 32], org, "N".into(), "D".into(), "I".into()).unwrap();
    PoapBadge::mint_badge(&mut env, [4; 32], Address::Account([1; 32])).unwrap();
    let auths = env.auths();
    assert_eq!(auths.len(), 1);
    assert_eq!(auths[0].address, org);
    assert_eq!(auths[0].contract, Address::Contract([0xEE; 32]));
    assert_eq!(auths[0].function, "mint_badge");
}

#[test]
fn badges_are_permanent_and_collectors_match_holders() {
    let mut env = registry();
    let org = Address::Account([9; 32]);
    let a = Address::Account([1; 32]);
    let b = Address::Contract([2; 32]);
    PoapBadge::create_event(&mut env, [1; 32], org, "1".into(), "".into(), "".into()).unwrap();
    PoapBadge::mint_badge(&mut env, [1; 32], a).unwrap();
    PoapBadge::create_event(&mut env, [2; 32], org, "2".into(), "".into(), "".into()).unwrap();
    PoapBadge::mint_badge(&mut env, [2; 32], b).unwrap();
    PoapBadge::mint_badge(&mut env, [2; 32], a).unwrap();
    assert!(PoapBadge::has_badge(&env, [1; 32], a));
    assert_eq!(PoapBadge::list_user_badges(&env, a), vec![[1u8; 32], [2u8; 32]]);
    assert_eq!(PoapBadge::list_event_owners(&env, [2; 32]), vec![b, a]);
    assert_eq!(PoapBadge::list_event_owners(&env, [1; 32]), vec![a]);
    assert!(!PoapBadge::has_badge(&env, [1; 32], b));
}

#[test]
fn gallery_pairs_each_event_with_its_metadata_in_order() {
    let mut env = registry();
    let org = Address::Account([9; 32]);
    PoapBadge::create_event(&mut env, [3; 32], org, "c".into(), "dc".into(), "ic".into()).unwrap();
    PoapBadge::create_event(&mut env, [1; 32], org, "a".into(), "da".into(), "ia".into()).unwrap();
    assert_eq!(
        PoapBadge::list_all_badges(&env),
        vec![
            BadgeInfo { event_id: [3; 32], metadata: meta("c", "dc", "ic") },
            BadgeInfo { event_id: [1; 32], metadata: meta("a", "da", "ia") },
        ]
    );
}

// ------------------------------------------------------------------- codec

#[test]
fn hex_is_lower_case_two_digits_per_byte() {
    assert_eq!(hex(&[0x00, 0x0f, 0xa5, 0xff]), "000fa5ff");
    assert_eq!(hex(&[]), "");
}

#[test]
fn parse_id_accepts_0x_prefix_and_upper_case() {
    assert_eq!(parse_id_hex(&format!("0x{}", "ab".repeat(32))), Ok([0xab; 32]));
    assert_eq!(parse_id_hex(&"AB".repeat(32)), Ok([0xab; 32]));
}

#[test]
fn hex_ids_round_trip_with_prefix_and_in_upper_case() {
    let mut a = [0u8; 32];
    for (i, b) in a.iter_mut().enumerate() {
        *b = (i as u8).wrapping_mul(37).wrapping_add(5);
    }
    let h = hex(&a);
    assert_eq!(parse_id_hex(&format!("0x{h}")), Ok(a));
    assert_eq!(parse_id_hex(&h.to_uppercase()), Ok(a));
    let s = "0123456789abcdef".repeat(4);
    assert_eq!(hex(&parse_id_hex(&s).unwrap()), s);
}

#[test]
fn metadata_decoding_ignores_entry_order_and_other_entries() {
    let fields = vec![
        entry(sym("description"), text("d")),
        entry(sym("image_ipfs"), text("ipfs://i")),
        entry(sym("name"), text("n")),
    ];
    let reordered = vec![
        entry(ScValue::Other, text("ignored")),
        entry(sym("name"), text("n")),
        entry(sym("colour"), ScValue::Other),
        entry(sym("image_ipfs"), text("ipfs://i")),
        entry(sym("description"), text("d")),
    ];
    let a = decode_event_metadata(&ScValue::Mapping(Some(fields)));
    let b = decode_event_metadata(&ScValue::Mapping(Some(reordered)));
    assert_eq!(a, Ok(meta("n", "d", "ipfs://i")));
    assert_eq!(a, b);
}

#[test]
fn only_the_exact_field_symbols_select_a_field() {
    let entries = vec![
        entry(ScValue::Symbol(vec![0xff, b'n']), text("not a field")),
        entry(ScValue::Symbol(b"Name".to_vec()), text("not a field either")),
        entry(sym("description"), text("d")),
        entry(sym("image_ipfs"), text("ipfs://i")),
    ];
    assert_eq!(
        decode_event_metadata(&ScValue::Mapping(Some(entries))),
        Err(AppError::Decode("missing name".to_string()))
    );
}

#[test]
fn parse_id_refuses_signed_chunks() {
    let mut id = String::from("+f");
    id.push_str(&"00".repeat(31));
    assert_eq!(parse_id_hex(&id), Err(AppError::BadRequest("bad hex".to_string())));
    let mut id = String::from("0x");
    id.push_str(&"+1".repeat(32));
    assert_eq!(parse_id_hex(&id), Err(AppError::BadRequest("bad hex".to_string())));
}

#[test]
fn parse_id_error_messages() {
    assert_eq!(
        parse_id_hex("abcd"),
        Err(AppError::BadRequest("event id must be 32-byte hex".to_string()))
    );
    assert_eq!(parse_id_hex(&"zz".repeat(32)), Err(AppError::BadRequest("bad hex".to_string())));
    // 32 two-byte characters: 64 bytes, none of them hexadecimal
    assert_eq!(parse_id_hex(&"é".repeat(32)), Err(AppError::BadRequest("bad hex".to_string())));
    assert_eq!(
        parse_id_hex(&"é".repeat(64)),
        Err(AppError::BadRequest("event id must be 32-byte hex".to_string()))
    );
    assert!(parse_id_hex(&format!("0x{}", "ab".repeat(33))).is_err());
}

#[test]
fn symbols_hold_at_most_32_bytes() {
    let long = "a".repeat(33);
    assert_eq!(symbol(&long), Err(AppError::Decode(format!("symbol too long: {long}"))));
    assert_eq!(symbol(&"a".repeat(32)), Ok(ScValue::Symbol(vec![b'a'; 32])));
}

#[test]
fn storage_keys_are_enum_vectors() {
    assert_eq!(key_events(), Ok(ScValue::Vec(Some(vec![sym("Events")]))));
    assert_eq!(
        key_event_meta([2; 32]),
        Ok(ScValue::Vec(Some(vec![sym("EventMeta"), ScValue::Bytes(vec![2; 32])])))
    );
    assert_eq!(
        key_event_owners([3; 32]),
        Ok(ScValue::Vec(Some(vec![sym("EventOwners"), ScValue::Bytes(vec![3; 32])])))
    );
    assert_eq!(
        key_user_badges([4; 32]),
        Ok(ScValue::Vec(Some(vec![sym("UserBadges"), ScValue::Address(Address::Account([4; 32]))])))
    );
    assert_eq!(
        ledger_key([1; 32], ScValue::Other),
        ContractDataKey {
            contract: Address::Contract([1; 32]),
            key: ScValue::Other,
            durability: Durability::Persistent,
        }
    );
}

#[test]
fn distinct_storage_keys_encode_differently() {
    let keys = vec![
        key_events().unwrap(),
        key_event_meta([1; 32]).unwrap(),
        key_event_meta([2; 32]).unwrap(),
        key_event_owners([1; 32]).unwrap(),
        key_event_owners([2; 32]).unwrap(),
        key_user_badges([1; 32]).unwrap(),
        key_user_badges([2; 32]).unwrap(),
    ];
    for i in 0..keys.len() {
        for j in 0..keys.len() {
            assert_eq!(keys[i] == keys[j], i == j);
        }
    }
}

#[test]
fn vectors_wrap_their_items() {
    assert_eq!(sc_vec(vec![]), Ok(ScValue::Vec(Some(vec![]))));
    assert_eq!(sc_vec(vec![ScValue::Other]), Ok(ScValue::Vec(Some(vec![ScValue::Other]))));
}

#[test]
fn decoders_name_what_they_expected() {
    let decode = |m: &str| Err(AppError::Decode(m.to_string()));
    assert_eq!(decode_bytes_vec(&ScValue::Other), decode("expected vec"));
    assert_eq!(decode_bytes_vec(&ScValue::Vec(Some(vec![text("x")]))), decode("expected bytes"));
    assert_eq!(decode_address_vec(&ScValue::Vec(Some(vec![ScValue::Other]))), decode("expected address"));
    assert_eq!(decode_event_metadata(&ScValue::Mapping(None)), Err(AppError::Decode("expected map".to_string())));
    assert_eq!(
        decode_event_metadata(&ScValue::Mapping(Some(vec![entry(sym("name"), ScValue::Other)]))),
        Err(AppError::Decode("expected string".to_string()))
    );
    assert_eq!(
        decode_event_metadata(&ScValue::Mapping(Some(vec![entry(sym("description"), text("d"))]))),
        Err(AppError::Decode("missing name".to_string()))
    );
    assert_eq!(
        decode_event_metadata(&ScValue::Mapping(Some(vec![entry(sym("name"), text("n"))]))),
        Err(AppError::Decode("missing description".to_string()))
    );
    assert_eq!(
        decode_event_metadata(&ScValue::Mapping(Some(vec![
            entry(sym("name"), text("n")),
            entry(sym("description"), text("d")),
        ]))),
        Err(AppError::Decode("missing image_ipfs".to_string()))
    );
}

#[test]
fn metadata_decoding_ignores_other_keys_and_keeps_the_last_value() {
    let v = ScValue::Mapping(Some(vec![
        entry(text("name"), text("not a symbol key")),
        entry(sym("extra"), ScValue::Other),
        entry(sym("name"), text("first")),
        entry(sym("description"), text("d")),
        entry(sym("image_ipfs"), text("ipfs://x")),
        entry(sym("name"), text("last")),
    ]));
    assert_eq!(decode_event_metadata(&v), Ok(meta("last", "d", "ipfs://x")));
}

#[test]
fn metadata_strings_decode_leniently() {
    let v = ScValue::Mapping(Some(vec![
        entry(sym("description"), ScValue::String(vec![0x61, 0xff])),
        entry(sym("image_ipfs"), text("i")),
        entry(sym("name"), text("Meridian 2025")),
    ]));
    assert_eq!(decode_event_metadata(&v), Ok(meta("Meridian 2025", "a\u{FFFD}", "i")));
}

#[test]
fn contract_addresses_decode_to_c_strkeys() {
    let v = ScValue::Vec(Some(vec![ScValue::Address(Address::Contract([5; 32]))]));
    let out = decode_address_vec(&v).unwrap();
    assert_eq!(out.len(), 1);
    assert_eq!(out[0].len(), 56);
    assert!(out[0].starts_with('C'));
    assert_eq!(parse_contract_strkey(&out[0]), Some([5; 32]));
}

// --------------------------------------------------------------- strkeys

#[test]
fn strkeys_read_back() {
    let g = account_strkey(&[7; 32]);
    assert_eq!(g.len(), 56);
    assert!(g.starts_with('G'));
    assert_eq!(parse_account_strkey(&g), Some([7; 32]));
    let c = contract_strkey(&[8; 32]);
    assert!(c.starts_with('C'));
    assert_eq!(parse_contract_strkey(&c), Some([8; 32]));
    assert_eq!(parse_contract_strkey(&g), None);
    assert_eq!(parse_account_strkey("GABC"), None);
}

// ------------------------------------------------------------------- reads

#[test]
fn contract_id_must_be_a_contract_strkey() {
    let c = contract_strkey(&[3; 32]);
    assert_eq!(parse_contract_id(&c), Ok([3; 32]));
    assert_eq!(
        parse_contract_id(&account_strkey(&[3; 32])),
        Err(AppError::BadRequest("invalid CONTRACT_ID strkey".to_string()))
    );
}

#[test]
fn rpc_answers_select_the_first_entry() {
    assert_eq!(
        entry_from_response(Some("boom".to_string()), Some(vec!["x".to_string()])),
        Err(AppError::Rpc("boom".to_string()))
    );
    assert_eq!(entry_from_response(None, None), Ok(None));
    assert_eq!(entry_from_response(None, Some(vec![])), Ok(None));
    assert_eq!(
        entry_from_response(None, Some(vec!["a".to_string(), "b".to_string()])),
        Ok(Some("a".to_string()))
    );
}

#[test]
fn ledger_entries_must_be_contract_data() {
    assert_eq!(entry_value(Ok(LedgerEntry::ContractData(ScValue::Other))), Ok(ScValue::Other));
    assert_eq!(
        entry_value(Ok(LedgerEntry::Other)),
        Err(AppError::Decode("not contract data".to_string()))
    );
    assert_eq!(
        entry_value(Err("bad".to_string())),
        Err(AppError::Decode("ledger entry xdr: bad".to_string()))
    );
}

#[test]
fn reads_ask_for_the_registry_keys() {
    assert_eq!(events_request(), key_events());
    let id = "ab".repeat(32);
    assert_eq!(event_meta_request(&id), key_event_meta([0xab; 32]));
    assert_eq!(event_owners_request(&id), key_event_owners([0xab; 32]));
    assert!(matches!(event_meta_request("12"), Err(AppError::BadRequest(_))));
    let account = account_strkey(&[6; 32]);
    assert_eq!(user_badges_request(&account), key_user_badges([6; 32]));
    assert_eq!(
        user_badges_request("not-a-strkey"),
        Err(AppError::BadRequest("invalid account strkey".to_string()))
    );
}

#[test]
fn absent_entries_read_as_empty_or_not_found() {
    assert_eq!(ids_from_value(None), Ok(vec![]));
    assert_eq!(owners_from_value(None), Ok(vec![]));
    assert_eq!(event_from_value(None), Err(AppError::NotFound));
    let stored = ScValue::Mapping(Some(vec![
        entry(sym("description"), text("d")),
        entry(sym("image_ipfs"), text("i")),
        entry(sym("name"), text("n")),
    ]));
    let m = event_from_value(Some(stored)).unwrap();
    let ev = Event { id: "aa".repeat(32), metadata: m };
    assert_eq!(ev.metadata, meta("n", "d", "i"));
}

// ------------------------------------------------------------------ config

#[test]
fn port_reads_as_u16() {
    assert_eq!(parse_u16("8080"), Some(8080));
    assert_eq!(parse_u16("+80"), Some(80));
    assert_eq!(parse_u16("007"), Some(7));
    assert_eq!(parse_u16("65535"), Some(65535));
    assert_eq!(parse_u16("65536"), None);
    assert_eq!(parse_u16("99999999999"), None);
    assert_eq!(parse_u16("-1"), None);
    assert_eq!(parse_u16("+"), None);
    assert_eq!(parse_u16(""), None);
    assert_eq!(parse_u16(" 80"), None);
}

#[test]
fn config_defaults_and_requirements() {
    let cfg = Config::from_values(None, Some("C1".to_string()), None).unwrap();
    assert_eq!(cfg.rpc_url, "https://soroban-testnet.stellar.org");
    assert_eq!(cfg.contract_id, "C1");
    assert_eq!(cfg.port, 4000);
    let cfg = Config::from_values(Some("http://rpc".to_string()), Some("C".to_string()), Some("9000".to_string()))
        .unwrap();
    assert_eq!(cfg.rpc_url, "http://rpc");
    assert_eq!(cfg.port, 9000);
    let cfg = Config::from_values(None, Some("C".to_string()), Some("http".to_string())).unwrap();
    assert_eq!(cfg.port, 4000);
    assert_eq!(
        Config::from_values(None, None, None),
        Err("CONTRACT_ID is required (deployed C... strkey)".to_string())
    );
}

// ----------------------------------------------------------- persistence

use poap_badge::contract::storage::{get_event_organizer, EventRecord, HolderRecord};

fn dump(env: &Env) -> (Vec<EventRecord>, Vec<HolderRecord>) {
    let mut events = Vec::new();
    let mut holders: Vec<Address> = Vec::new();
    for id in PoapBadge::list_events(env) {
        let owners = PoapBadge::list_event_owners(env, id);
        for o in &owners {
            if !holders.contains(o) {
                holders.push(*o);
            }
        }
        events.push(EventRecord {
            event_id: id,
            metadata: PoapBadge::get_event(env, id).unwrap(),
            organizer: get_event_organizer(env, &id).unwrap(),
            owners,
        });
    }
    let holders = holders
        .into_iter()
        .map(|h| HolderRecord { holder: h, badges: PoapBadge::list_user_badges(env, h) })
        .collect();
    (events, holders)
}

#[test]
fn restore_rebuilds_a_registry_from_its_records() {
    let mut env = registry();
    let org = Address::Account([9; 32]);
    let a = Address::Account([1; 32]);
    let b = Address::Contract([2; 32]);
    PoapBadge::create_event(&mut env, [1; 32], org, "1".into(), "d1".into(), "i1".into()).unwrap();
    PoapBadge::create_event(&mut env, [2; 32], org, "2".into(), "d2".into(), "i2".into()).unwrap();
    PoapBadge::mint_badge(&mut env, [2; 32], a).unwrap();
    PoapBadge::mint_badge(&mut env, [1; 32], b).unwrap();
    PoapBadge::mint_badge(&mut env, [1; 32], a).unwrap();

    let (events, holders) = dump(&env);
    let mut back = Env::restore(Address::Contract([0xEE; 32]), &events, &holders).unwrap();
    assert_eq!(PoapBadge::list_all_badges(&back), PoapBadge::list_all_badges(&env));
    assert_eq!(PoapBadge::list_user_badges(&back, a), vec![[2u8; 32], [1u8; 32]]);
    assert_eq!(PoapBadge::list_event_owners(&back, [1; 32]), vec![b, a]);
    assert!(back.auths().is_empty());
    assert_eq!(PoapBadge::mint_badge(&mut back, [1; 32], a), Err(Error::BadgeAlreadyMinted));
    PoapBadge::mint_badge(&mut back, [2; 32], b).unwrap();
    assert_eq!(back.auths()[0].address, org);
}

#[test]
fn restore_refuses_inconsistent_records() {
    let rec = |id: u8, owners: Vec<Address>| EventRecord {
        event_id: [id; 32],
        metadata: meta("n", "d", "i"),
        organizer: Address::Account([9; 32]),
        owners,
    };
    let a = Address::Account([1; 32]);
    let contract = Address::Contract([0xEE; 32]);
    // a collector whose badge list lacks the event
    assert!(Env::restore(contract, &vec![rec(1, vec![a])], &vec![]).is_none());
    // a badge of an unknown event
    let h = HolderRecord { holder: a, badges: vec![[7; 32]] };
    assert!(Env::restore(contract, &vec![rec(1, vec![])], &vec![h]).is_none());
    // an event listed twice
    assert!(Env::restore(contract, &vec![rec(1, vec![]), rec(1, vec![])], &vec![]).is_none());
    // a collector listed twice
    let h = HolderRecord { holder: a, badges: vec![[1; 32]] };
    assert!(Env::restore(contract, &vec![rec(1, vec![a, a])], &vec![h]).is_none());
    // consistent
    let h = HolderRecord { holder: a, badges: vec![[1; 32]] };
    let env = Env::restore(contract, &vec![rec(1, vec![a])], &vec![h]).unwrap();
    assert!(PoapBadge::has_badge(&env, [1; 32], a));
}
