//! Storage keys as ledger values, and ledger values decoded into the
//! indexer's domain. Mirrors how the registry stores its types: an enum is a
//! vector `[symbol(variant), fields...]`, a struct a map from field-name
//! symbols to values.

use vstd::prelude::*;

use crate::backend::error::{AppError, AppErrorView};
use crate::backend::text::{from_utf8_lossy, lossy_text, push_char};
use crate::backend::strkey::{account_strkey, account_strkey_text, contract_strkey, contract_strkey_text};
use crate::contract::storage::DataKey;
use crate::contract::types::{Address, EventMetadata};
use vstd::slice::slice_to_vec;
use vstd::string::{StringExecFns, StringSliceAdditionalSpecFns};
use vstd::utf8::{encode_utf8, is_ascii_chars, is_ascii_chars_encode_utf8};

verus! {

/// A ledger value, as far as the indexer reads or writes one.
#[derive(Debug, PartialEq, Eq)]
pub enum ScValue {
    Bytes(Vec<u8>),
    /// A string's raw bytes.
    String(Vec<u8>),
    /// A symbol's raw bytes.
    Symbol(Vec<u8>),
    /// An account or contract address.
    Address(Address),
    /// A vector, `None` when absent.
    Vec(Option<Vec<ScValue>>),
    /// A map's entries, `None` when absent.
    Mapping(Option<Vec<ScMapEntry>>),
    /// Any other value (numbers, booleans, other kinds of address, ...).
    Other,
}

/// One entry of a ledger map.
#[derive(Debug, PartialEq, Eq)]
pub struct ScMapEntry {
    pub key: ScValue,
    pub val: ScValue,
}

/// How long a ledger entry lives.
#[derive(Clone, Copy, Debug, PartialEq, Eq)]
pub enum Durability {
    Temporary,
    Persistent,
}

/// The ledger key of one entry of a contract's storage.
#[derive(Debug, PartialEq, Eq)]
pub struct ContractDataKey {
    pub contract: Address,
    pub key: ScValue,
    pub durability: Durability,
}

/// The name under which the registry stores a `DataKey` variant.
pub open spec fn variant_name(k: DataKey) -> Seq<char> {
    match k {
        DataKey::Events => "Events"@,
        DataKey::EventMeta(_) => "EventMeta"@,
        DataKey::EventOrganizer(_) => "EventOrganizer"@,
        DataKey::EventOwners(_) => "EventOwners"@,
        DataKey::UserBadges(_) => "UserBadges"@,
    }
}

/// Whether `v` is the bytes `b`.
pub open spec fn is_bytes(v: ScValue, b: Seq<u8>) -> bool {
    v matches ScValue::Bytes(x) && x@ == b
}

/// Whether `v` is the symbol with bytes `b`.
pub open spec fn is_symbol(v: ScValue, b: Seq<u8>) -> bool {
    v matches ScValue::Symbol(x) && x@ == b
}

/// Whether `v` is the vector `[symbol(name)]` or, with a field,
/// `[symbol(name), field]`.
pub open spec fn is_enum_value(v: ScValue, name: Seq<u8>, field: Option<ScValue>) -> bool {
    match v {
        ScValue::Vec(Some(items)) => {
            &&& items@.len() >= 1
            &&& is_symbol(items@[0], name)
            &&& match field {
                None => items@.len() == 1,
                Some(f) => items@.len() == 2 && items@[1] == f,
            }
        },
        _ => false,
    }
}

/// Whether `v` is how the registry's storage encodes the key `k`: the vector
/// `[symbol(variant name), field]`, or `[symbol(variant name)]` for a
/// variant without field.
pub open spec fn encodes_key(v: ScValue, k: DataKey) -> bool {
    let name = encode_utf8(variant_name(k));
    match k {
        DataKey::Events => is_enum_value(v, name, None),
        DataKey::EventMeta(id) => is_enum_value(v, name, Some(v->Vec_0->0@[1]))
            && is_bytes(v->Vec_0->0@[1], id@),
        DataKey::EventOrganizer(id) => is_enum_value(v, name, Some(v->Vec_0->0@[1]))
            && is_bytes(v->Vec_0->0@[1], id@),
        DataKey::EventOwners(id) => is_enum_value(v, name, Some(v->Vec_0->0@[1]))
            && is_bytes(v->Vec_0->0@[1], id@),
        DataKey::UserBadges(a) => is_enum_value(v, name, Some(ScValue::Address(a))),
    }
}

proof fn lemma_ascii_bytes(s: &str)
    requires
        is_ascii_chars(s@),
    ensures
        s.spec_bytes().len() == s@.len(),
{
    is_ascii_chars_encode_utf8(s@);
}

/// The symbol `s`; fails when `s` is longer than the 32 bytes a symbol
/// holds.
pub fn symbol(s: &str) -> (r: Result<ScValue, AppError>)
    ensures
        s.spec_bytes().len() <= 32 ==> (r matches Ok(v) && is_symbol(v, s.spec_bytes())),
        s.spec_bytes().len() > 32 ==> (r matches Err(e) && e@ == AppErrorView::Decode(
            "symbol too long: "@ + s@,
        )),
{
    let bytes = s.as_bytes();
    if bytes.len() <= 32 {
        Ok(ScValue::Symbol(slice_to_vec(bytes)))
    } else {
        let mut m = "symbol too long: ".to_owned();
        m.append(s);
        Err(AppError::Decode(m))
    }
}

/// The bytes of a 32-byte value.
pub fn bytes32(raw: [u8; 32]) -> (r: Result<ScValue, AppError>)
    ensures
        r matches Ok(v) && is_bytes(v, raw@),
{
    Ok(ScValue::Bytes(slice_to_vec(raw.as_slice())))
}

/// A vector of `items`; fails when there are more items than the
/// `u32::MAX` a ledger vector holds.
pub fn sc_vec(items: Vec<ScValue>) -> (r: Result<ScValue, AppError>)
    ensures
        items@.len() <= u32::MAX ==> r == Ok::<ScValue, AppError>(ScValue::Vec(Some(items))),
        items@.len() > u32::MAX ==> (r matches Err(e) && e@ == AppErrorView::Decode("scvec"@)),
{
    if items.len() as u64 <= u32::MAX as u64 {
        Ok(ScValue::Vec(Some(items)))
    } else {
        Err(AppError::Decode("scvec".to_owned()))
    }
}

/// An enum variant without field: `[symbol(variant)]`.
fn enum_unit(variant: &str) -> (r: Result<ScValue, AppError>)
    requires
        variant.spec_bytes().len() <= 32,
    ensures
        r matches Ok(v) && is_enum_value(v, variant.spec_bytes(), None),
{
    let sym = symbol(variant)?;
    sc_vec(vec![sym])
}

/// An enum variant with one field: `[symbol(variant), field]`.
fn enum_one(variant: &str, field: ScValue) -> (r: Result<ScValue, AppError>)
    requires
        variant.spec_bytes().len() <= 32,
    ensures
        r matches Ok(v) && is_enum_value(v, variant.spec_bytes(), Some(field)),
{
    let sym = symbol(variant)?;
    sc_vec(vec![sym, field])
}

/// The storage key of the event list, `DataKey::Events`.
pub fn key_events() -> (r: Result<ScValue, AppError>)
    ensures
        r matches Ok(v) && encodes_key(v, DataKey::Events),
{
    proof {
        reveal_strlit("Events");
        lemma_ascii_bytes("Events");
    }
    enum_unit("Events")
}

/// The storage key of an event's metadata, `DataKey::EventMeta(id)`.
pub fn key_event_meta(id: [u8; 32]) -> (r: Result<ScValue, AppError>)
    ensures
        r matches Ok(v) && encodes_key(v, DataKey::EventMeta(id)),
{
    proof {
        reveal_strlit("EventMeta");
        lemma_ascii_bytes("EventMeta");
    }
    let field = bytes32(id)?;
    enum_one("EventMeta", field)
}

/// The storage key of an event's collectors, `DataKey::EventOwners(id)`.
pub fn key_event_owners(id: [u8; 32]) -> (r: Result<ScValue, AppError>)
    ensures
        r matches Ok(v) && encodes_key(v, DataKey::EventOwners(id)),
{
    proof {
        reveal_strlit("EventOwners");
        lemma_ascii_bytes("EventOwners");
    }
    let field = bytes32(id)?;
    enum_one("EventOwners", field)
}

/// The storage key of an account's badges,
/// `DataKey::UserBadges(Address::Account(account))`.
pub fn key_user_badges(account: [u8; 32]) -> (r: Result<ScValue, AppError>)
    ensures
        r matches Ok(v) && encodes_key(v, DataKey::UserBadges(Address::Account(account))),
{
    proof {
        reveal_strlit("UserBadges");
        lemma_ascii_bytes("UserBadges");
    }
    let addr = ScValue::Address(Address::Account(account));
    enum_one("UserBadges", addr)
}

/// The ledger key of a persistent entry `key` of contract `contract`.
pub fn ledger_key(contract: [u8; 32], key: ScValue) -> (r: ContractDataKey)
    ensures
        r == (ContractDataKey {
            contract: Address::Contract(contract),
            key,
            durability: Durability::Persistent,
        }),
{
    ContractDataKey { contract: Address::Contract(contract), key, durability: Durability::Persistent }
}

/// The lower-case hexadecimal digit of `n` (0 to 15).
pub open spec fn hex_digit(n: int) -> char {
    if n < 10 {
        (n + 48) as char
    } else {
        (n + 87) as char
    }
}

/// Lower-case hexadecimal text of `bytes`, two digits per byte.
pub open spec fn hex_of(bytes: Seq<u8>) -> Seq<char> {
    Seq::new(
        2 * bytes.len(),
        |i: int|
            if i % 2 == 0 {
                hex_digit(bytes[i / 2] as int / 16)
            } else {
                hex_digit(bytes[i / 2] as int % 16)
            },
    )
}

fn nibble_char(n: u8) -> (c: char)
    requires
        n < 16,
    ensures
        c == hex_digit(n as int),
{
    if n < 10 {
        (n + 48) as char
    } else {
        (n + 87) as char
    }
}

/// Lower-case hexadecimal text of `bytes`.
pub fn hex(bytes: &[u8]) -> (r: String)
    ensures
        r@ == hex_of(bytes@),
{
    let mut s = String::new();
    let mut i: usize = 0;
    while i < bytes.len()
        invariant
            i <= bytes@.len(),
            s@ == hex_of(bytes@.take(i as int)),
        decreases bytes@.len() - i,
    {
        let b = bytes[i];
        push_char(&mut s, nibble_char(b / 16));
        push_char(&mut s, nibble_char(b % 16));
        assert(s@ =~= hex_of(bytes@.take(i + 1)));
        i = i + 1;
    }
    assert(bytes@.take(bytes@.len() as int) =~= bytes@);
    s
}


/// The value of an ASCII hexadecimal digit (either case).
pub open spec fn hex_value(c: u8) -> Option<u8> {
    if 48 <= c <= 57 {
        Some((c - 48) as u8)
    } else if 97 <= c <= 102 {
        Some((c - 87) as u8)
    } else if 65 <= c <= 70 {
        Some((c - 55) as u8)
    } else {
        None
    }
}

/// The byte that a two-byte chunk of an id spells: two hexadecimal
/// digits, high digit first.
pub open spec fn chunk_value(c0: u8, c1: u8) -> Option<u8> {
    match (hex_value(c0), hex_value(c1)) {
        (Some(h), Some(l)) => Some((16 * h + l) as u8),
        _ => None,
    }
}

/// The bytes of an id after an optional `0x` prefix.
pub open spec fn id_body(b: Seq<u8>) -> Seq<u8> {
    if b.len() >= 2 && b[0] == 48 && b[1] == 120 {
        b.subrange(2, b.len() as int)
    } else {
        b
    }
}

/// Whether every two-byte chunk of a 64-byte body spells a byte.
pub open spec fn chunks_valid(body: Seq<u8>) -> bool {
    forall|i: int| 0 <= i < 32 ==> #[trigger] chunk_value(body[2 * i], body[2 * i + 1]) is Some
}

/// What `parse_id_hex` answers for the UTF-8 bytes `b` of its argument.
pub open spec fn parse_id_hex_result(b: Seq<u8>) -> Result<Seq<u8>, AppErrorView> {
    let body = id_body(b);
    if body.len() != 64 {
        Err(AppErrorView::BadRequest("event id must be 32-byte hex"@))
    } else if chunks_valid(body) {
        Ok(Seq::new(32, |i: int| chunk_value(body[2 * i], body[2 * i + 1]).unwrap()))
    } else {
        Err(AppErrorView::BadRequest("bad hex"@))
    }
}

fn hex_digit_value(c: u8) -> (r: Option<u8>)
    ensures
        r == hex_value(c),
{
    if 48 <= c && c <= 57 {
        Some(c - 48)
    } else if 97 <= c && c <= 102 {
        Some(c - 87)
    } else if 65 <= c && c <= 70 {
        Some(c - 55)
    } else {
        None
    }
}

fn decode_chunk(c0: u8, c1: u8) -> (r: Option<u8>)
    ensures
        r == chunk_value(c0, c1),
{
    match (hex_digit_value(c0), hex_digit_value(c1)) {
        (Some(h), Some(l)) => Some(16 * h + l),
        _ => None,
    }
}

/// Converts a hexadecimal `event_id` (64 digits, optionally after `0x`)
/// into its 32 bytes.
pub fn parse_id_hex(id: &str) -> (r: Result<[u8; 32], AppError>)
    ensures
        match (r, parse_id_hex_result(id.spec_bytes())) {
            (Ok(a), Ok(s)) => a@ == s,
            (Err(e), Err(v)) => e@ == v,
            _ => false,
        },
{
    let b = id.as_bytes();
    let start: usize = if b.len() >= 2 && b[0] == 48 && b[1] == 120 {
        2
    } else {
        0
    };
    let ghost body = id_body(b@);
    assert(body =~= b@.subrange(start as int, b@.len() as int));
    if b.len() - start != 64 {
        return Err(AppError::BadRequest("event id must be 32-byte hex".to_owned()));
    }
    let mut out = [0u8; 32];
    let mut i: usize = 0;
    while i < 32
        invariant
            b@ == id.spec_bytes(),
            body == b@.subrange(start as int, b@.len() as int),
            body == id_body(b@),
            body.len() == 64,
            start + 64 == b@.len(),
            start <= 2,
            i <= 32,
            forall|j: int| 0 <= j < i ==> #[trigger] chunk_value(body[2 * j], body[2 * j + 1]) == Some(out@[j]),
        decreases 32 - i,
    {
        let c0 = b[start + 2 * i];
        let c1 = b[start + 2 * i + 1];
        assert(c0 == body[2 * i] && c1 == body[2 * i + 1]);
        match decode_chunk(c0, c1) {
            Some(v) => {
                out[i] = v;
            },
            None => {
                assert(!chunks_valid(body));
                return Err(AppError::BadRequest("bad hex".to_owned()));
            },
        }
        i = i + 1;
    }
    assert(chunks_valid(body));
    assert(out@ =~= Seq::new(32, |j: int| chunk_value(body[2 * j], body[2 * j + 1]).unwrap()));
    Ok(out)
}


/// What `decode_bytes_vec` makes of one item.
pub open spec fn bytes_item(v: ScValue) -> Result<Seq<char>, AppErrorView> {
    match v {
        ScValue::Bytes(b) => Ok(hex_of(b@)),
        _ => Err(AppErrorView::Decode("expected bytes"@)),
    }
}

/// What `decode_address_vec` makes of one item.
pub open spec fn address_item(v: ScValue) -> Result<Seq<char>, AppErrorView> {
    match v {
        ScValue::Address(Address::Account(k)) => Ok(account_strkey_text(k@)),
        ScValue::Address(Address::Contract(h)) => Ok(contract_strkey_text(h@)),
        _ => Err(AppErrorView::Decode("expected address"@)),
    }
}

/// What `decode_event_metadata` makes of one field's value.
pub open spec fn string_item(v: ScValue) -> Result<Seq<char>, AppErrorView> {
    match v {
        ScValue::String(b) => Ok(lossy_text(b@)),
        _ => Err(AppErrorView::Decode("expected string"@)),
    }
}

/// The hexadecimal ids of `items`, or the error of the first item that is
/// not bytes.
pub open spec fn hex_items(items: Seq<ScValue>) -> Result<Seq<Seq<char>>, AppErrorView>
    decreases items.len(),
{
    if items.len() == 0 {
        Ok(Seq::empty())
    } else {
        match hex_items(items.drop_last()) {
            Err(e) => Err(e),
            Ok(prev) => match bytes_item(items.last()) {
                Ok(x) => Ok(prev.push(x)),
                Err(e) => Err(e),
            },
        }
    }
}

/// The strkeys of `items`, or the error of the first item that is not an
/// account or contract address.
pub open spec fn strkey_items(items: Seq<ScValue>) -> Result<Seq<Seq<char>>, AppErrorView>
    decreases items.len(),
{
    if items.len() == 0 {
        Ok(Seq::empty())
    } else {
        match strkey_items(items.drop_last()) {
            Err(e) => Err(e),
            Ok(prev) => match address_item(items.last()) {
                Ok(x) => Ok(prev.push(x)),
                Err(e) => Err(e),
            },
        }
    }
}

proof fn lemma_hex_items_err(items: Seq<ScValue>, n: int)
    requires
        0 <= n <= items.len(),
        hex_items(items.take(n)) is Err,
    ensures
        hex_items(items) == hex_items(items.take(n)),
    decreases items.len() - n,
{
    if n < items.len() {
        assert(items.take(n + 1).drop_last() =~= items.take(n));
        lemma_hex_items_err(items, n + 1);
    } else {
        assert(items.take(n) =~= items);
    }
}

proof fn lemma_strkey_items_err(items: Seq<ScValue>, n: int)
    requires
        0 <= n <= items.len(),
        strkey_items(items.take(n)) is Err,
    ensures
        strkey_items(items) == strkey_items(items.take(n)),
    decreases items.len() - n,
{
    if n < items.len() {
        assert(items.take(n + 1).drop_last() =~= items.take(n));
        lemma_strkey_items_err(items, n + 1);
    } else {
        assert(items.take(n) =~= items);
    }
}

/// What `decode_bytes_vec` answers.
pub open spec fn decode_bytes_vec_result(v: ScValue) -> Result<Seq<Seq<char>>, AppErrorView> {
    match v {
        ScValue::Vec(Some(items)) => hex_items(items@),
        ScValue::Vec(None) => Ok(Seq::empty()),
        _ => Err(AppErrorView::Decode("expected vec"@)),
    }
}

/// What `decode_address_vec` answers.
pub open spec fn decode_address_vec_result(v: ScValue) -> Result<Seq<Seq<char>>, AppErrorView> {
    match v {
        ScValue::Vec(Some(items)) => strkey_items(items@),
        ScValue::Vec(None) => Ok(Seq::empty()),
        _ => Err(AppErrorView::Decode("expected vec"@)),
    }
}

/// A list of strings, or an error, as sequences of characters.
pub open spec fn texts_view(r: Result<Vec<String>, AppError>) -> Result<Seq<Seq<char>>, AppErrorView> {
    match r {
        Ok(v) => Ok(v@.map_values(|s: String| s@)),
        Err(e) => Err(e@),
    }
}

/// A string, or an error, as a sequence of characters.
pub open spec fn text_view(r: Result<String, AppError>) -> Result<Seq<char>, AppErrorView> {
    match r {
        Ok(s) => Ok(s@),
        Err(e) => Err(e@),
    }
}

fn as_bytes32_hex(v: &ScValue) -> (r: Result<String, AppError>)
    ensures
        text_view(r) == bytes_item(*v),
{
    match v {
        ScValue::Bytes(b) => Ok(hex(b.as_slice())),
        _ => Err(AppError::Decode("expected bytes".to_owned())),
    }
}

fn as_string(v: &ScValue) -> (r: Result<String, AppError>)
    ensures
        text_view(r) == string_item(*v),
{
    match v {
        ScValue::String(s) => Ok(from_utf8_lossy(s.as_slice())),
        _ => Err(AppError::Decode("expected string".to_owned())),
    }
}

fn as_account_strkey(v: &ScValue) -> (r: Result<String, AppError>)
    ensures
        text_view(r) == address_item(*v),
{
    match v {
        ScValue::Address(Address::Account(k)) => Ok(account_strkey(k)),
        ScValue::Address(Address::Contract(h)) => Ok(contract_strkey(h)),
        _ => Err(AppError::Decode("expected address".to_owned())),
    }
}

/// Decodes a stored `Vec<BytesN<32>>` into hexadecimal ids.
pub fn decode_bytes_vec(v: &ScValue) -> (r: Result<Vec<String>, AppError>)
    ensures
        texts_view(r) == decode_bytes_vec_result(*v),
{
    match v {
        ScValue::Vec(Some(items)) => {
            let mut out: Vec<String> = Vec::new();
            let mut i: usize = 0;
            assert(items@.take(0) =~= Seq::<ScValue>::empty());
            assert(out@.map_values(|s: String| s@) =~= Seq::<Seq<char>>::empty());
            while i < items.len()
                invariant
                    i <= items@.len(),
                    decode_bytes_vec_result(*v) == hex_items(items@),
                    hex_items(items@.take(i as int)) == Ok::<Seq<Seq<char>>, AppErrorView>(
                        out@.map_values(|s: String| s@),
                    ),
                decreases items@.len() - i,
            {
                assert(items@.take(i + 1).drop_last() =~= items@.take(i as int));
                match as_bytes32_hex(&items[i]) {
                    Ok(s) => {
                        let ghost prev = out@.map_values(|s: String| s@);
                        out.push(s);
                        assert(out@.map_values(|s: String| s@) =~= prev.push(s@));
                    },
                    Err(e) => {
                        proof {
                            assert(items@.take(i + 1).last() == items@[i as int]);
                            assert(hex_items(items@.take(i + 1)) == Err::<Seq<Seq<char>>, AppErrorView>(e@));
                            lemma_hex_items_err(items@, i + 1);
                        }
                        return Err(e);
                    },
                }
                i = i + 1;
            }
            assert(items@.take(items@.len() as int) =~= items@);
            Ok(out)
        },
        ScValue::Vec(None) => {
            let out: Vec<String> = Vec::new();
            assert(out@.map_values(|s: String| s@) =~= Seq::<Seq<char>>::empty());
            Ok(out)
        },
        _ => Err(AppError::Decode("expected vec".to_owned())),
    }
}

/// Decodes a stored `Vec<Address>` into strkeys.
pub fn decode_address_vec(v: &ScValue) -> (r: Result<Vec<String>, AppError>)
    ensures
        texts_view(r) == decode_address_vec_result(*v),
{
    match v {
        ScValue::Vec(Some(items)) => {
            let mut out: Vec<String> = Vec::new();
            let mut i: usize = 0;
            assert(items@.take(0) =~= Seq::<ScValue>::empty());
            assert(out@.map_values(|s: String| s@) =~= Seq::<Seq<char>>::empty());
            while i < items.len()
                invariant
                    i <= items@.len(),
                    decode_address_vec_result(*v) == strkey_items(items@),
                    strkey_items(items@.take(i as int)) == Ok::<Seq<Seq<char>>, AppErrorView>(
                        out@.map_values(|s: String| s@),
                    ),
                decreases items@.len() - i,
            {
                assert(items@.take(i + 1).drop_last() =~= items@.take(i as int));
                match as_account_strkey(&items[i]) {
                    Ok(s) => {
                        let ghost prev = out@.map_values(|s: String| s@);
                        out.push(s);
                        assert(out@.map_values(|s: String| s@) =~= prev.push(s@));
                    },
                    Err(e) => {
                        proof {
                            assert(items@.take(i + 1).last() == items@[i as int]);
                            assert(strkey_items(items@.take(i + 1)) == Err::<Seq<Seq<char>>, AppErrorView>(e@));
                            lemma_strkey_items_err(items@, i + 1);
                        }
                        return Err(e);
                    },
                }
                i = i + 1;
            }
            assert(items@.take(items@.len() as int) =~= items@);
            Ok(out)
        },
        ScValue::Vec(None) => {
            let out: Vec<String> = Vec::new();
            assert(out@.map_values(|s: String| s@) =~= Seq::<Seq<char>>::empty());
            Ok(out)
        },
        _ => Err(AppError::Decode("expected vec".to_owned())),
    }
}


/// The metadata fields found so far while scanning a stored map.
pub struct MetaFields {
    pub name: Option<Seq<char>>,
    pub description: Option<Seq<char>>,
    pub image_ipfs: Option<Seq<char>>,
}

/// Scans one map entry: an entry whose key is the symbol of a metadata
/// field, byte for byte, sets that field (a later entry overrides an
/// earlier one); entries with other keys are ignored.
pub open spec fn scan_entry(acc: MetaFields, entry: ScMapEntry) -> Result<MetaFields, AppErrorView> {
    match entry.key {
        ScValue::Symbol(s) => {
            let field = s@;
            if field == encode_utf8("name"@) {
                match string_item(entry.val) {
                    Ok(x) => Ok(MetaFields { name: Some(x), ..acc }),
                    Err(e) => Err(e),
                }
            } else if field == encode_utf8("description"@) {
                match string_item(entry.val) {
                    Ok(x) => Ok(MetaFields { description: Some(x), ..acc }),
                    Err(e) => Err(e),
                }
            } else if field == encode_utf8("image_ipfs"@) {
                match string_item(entry.val) {
                    Ok(x) => Ok(MetaFields { image_ipfs: Some(x), ..acc }),
                    Err(e) => Err(e),
                }
            } else {
                Ok(acc)
            }
        },
        _ => Ok(acc),
    }
}

/// Scans the entries in order, stopping at the first field value that is
/// not a string.
pub open spec fn scan_fields(entries: Seq<ScMapEntry>) -> Result<MetaFields, AppErrorView>
    decreases entries.len(),
{
    if entries.len() == 0 {
        Ok(MetaFields { name: None, description: None, image_ipfs: None })
    } else {
        match scan_fields(entries.drop_last()) {
            Err(e) => Err(e),
            Ok(acc) => scan_entry(acc, entries.last()),
        }
    }
}

/// What `decode_event_metadata` answers: name, description and IPFS URI,
/// or the first error met.
pub open spec fn decode_event_metadata_result(v: ScValue) -> Result<
    (Seq<char>, Seq<char>, Seq<char>),
    AppErrorView,
> {
    match v {
        ScValue::Mapping(Some(entries)) => match scan_fields(entries@) {
            Err(e) => Err(e),
            Ok(f) => if f.name is None {
                Err(AppErrorView::Decode("missing name"@))
            } else if f.description is None {
                Err(AppErrorView::Decode("missing description"@))
            } else if f.image_ipfs is None {
                Err(AppErrorView::Decode("missing image_ipfs"@))
            } else {
                Ok((f.name->0, f.description->0, f.image_ipfs->0))
            },
        },
        _ => Err(AppErrorView::Decode("expected map"@)),
    }
}

/// Metadata, or an error, as sequences of characters.
pub open spec fn metadata_view(r: Result<EventMetadata, AppError>) -> Result<
    (Seq<char>, Seq<char>, Seq<char>),
    AppErrorView,
> {
    match r {
        Ok(m) => Ok((m.name@, m.description@, m.image_ipfs@)),
        Err(e) => Err(e@),
    }
}

/// An optional string as an optional sequence of characters.
pub open spec fn opt_text(o: Option<String>) -> Option<Seq<char>> {
    match o {
        Some(s) => Some(s@),
        None => None,
    }
}

/// Whether two byte strings are equal.
fn bytes_eq(a: &[u8], b: &[u8]) -> (r: bool)
    ensures
        r == (a@ == b@),
{
    if a.len() != b.len() {
        return false;
    }
    let mut i: usize = 0;
    while i < a.len()
        invariant
            a@.len() == b@.len(),
            i <= a@.len(),
            forall|j: int| 0 <= j < i ==> a@[j] == b@[j],
        decreases a@.len() - i,
    {
        if a[i] != b[i] {
            return false;
        }
        i = i + 1;
    }
    assert(a@ =~= b@);
    true
}

proof fn lemma_scan_fields_err(entries: Seq<ScMapEntry>, n: int)
    requires
        0 <= n <= entries.len(),
        scan_fields(entries.take(n)) is Err,
    ensures
        scan_fields(entries) == scan_fields(entries.take(n)),
    decreases entries.len() - n,
{
    if n < entries.len() {
        assert(entries.take(n + 1).drop_last() =~= entries.take(n));
        lemma_scan_fields_err(entries, n + 1);
    } else {
        assert(entries.take(n) =~= entries);
    }
}

/// Decodes stored `EventMetadata`, a map from field-name symbols to
/// strings.
pub fn decode_event_metadata(v: &ScValue) -> (r: Result<EventMetadata, AppError>)
    ensures
        metadata_view(r) == decode_event_metadata_result(*v),
{
    let map = match v {
        ScValue::Mapping(Some(m)) => m,
        _ => {
            return Err(AppError::Decode("expected map".to_owned()));
        },
    };
    let mut name: Option<String> = None;
    let mut description: Option<String> = None;
    let mut image_ipfs: Option<String> = None;
    let mut i: usize = 0;
    assert(map@.take(0) =~= Seq::<ScMapEntry>::empty());
    while i < map.len()
        invariant
            i <= map@.len(),
            *v == ScValue::Mapping(Some(*map)),
            scan_fields(map@.take(i as int)) == Ok::<MetaFields, AppErrorView>(
                MetaFields {
                    name: opt_text(name),
                    description: opt_text(description),
                    image_ipfs: opt_text(image_ipfs),
                },
            ),
        decreases map@.len() - i,
    {
        let entry = &map[i];
        assert(map@.take(i + 1).drop_last() =~= map@.take(i as int));
        assert(map@.take(i + 1).last() == *entry);
        if let ScValue::Symbol(s) = &entry.key {
            let is_name = bytes_eq(s.as_slice(), "name".as_bytes());
            let is_description = bytes_eq(s.as_slice(), "description".as_bytes());
            let is_image = bytes_eq(s.as_slice(), "image_ipfs".as_bytes());
            if is_name || is_description || is_image {
                match as_string(&entry.val) {
                    Ok(text) => {
                        if is_name {
                            name = Some(text);
                        } else if is_description {
                            description = Some(text);
                        } else {
                            image_ipfs = Some(text);
                        }
                    },
                    Err(e) => {
                        proof {
                            lemma_scan_fields_err(map@, i + 1);
                        }
                        return Err(e);
                    },
                }
            }
        }
        i = i + 1;
    }
    assert(map@.take(map@.len() as int) =~= map@);
    let name = match name {
        Some(n) => n,
        None => {
            return Err(AppError::Decode("missing name".to_owned()));
        },
    };
    let description = match description {
        Some(d) => d,
        None => {
            return Err(AppError::Decode("missing description".to_owned()));
        },
    };
    let image_ipfs = match image_ipfs {
        Some(u) => u,
        None => {
            return Err(AppError::Decode("missing image_ipfs".to_owned()));
        },
    };
    Ok(EventMetadata { name, description, image_ipfs })
}

} // verus!
