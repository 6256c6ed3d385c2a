//! Properties of the indexer's codec that span several functions.

use vstd::prelude::*;

use crate::backend::error::AppErrorView;
use crate::backend::scval::{
    address_item, bytes_item, chunk_value, decode_address_vec_result, decode_bytes_vec_result, decode_event_metadata_result, encodes_key,
    chunks_valid, hex_digit, hex_items, hex_of, hex_value, id_body, is_symbol, parse_id_hex_result, scan_entry,
    scan_fields, string_item, strkey_items, variant_name, MetaFields, ScMapEntry, ScValue,
};
use crate::backend::config::{all_digits, decimal_value, parse_u16_result};
use crate::contract::storage::DataKey;
use crate::contract::types::Address;
use crate::backend::strkey::{account_strkey_text, contract_strkey_text};
use crate::backend::text::lossy_text;
use vstd::utf8::{
    encode_utf8, encode_utf8_decode_utf8, encode_utf8_valid_utf8, is_ascii_chars,
    is_ascii_chars_encode_utf8,
};

verus! {

proof fn lemma_hex_digit_value(n: int)
    requires
        0 <= n < 16,
    ensures
        hex_value(hex_digit(n) as u8) == Some(n as u8),
        hex_digit(n) as u8 != 120,
        (hex_digit(n) as u8) < 128,
        hex_digit(n) as u8 as char == hex_digit(n),
{
}

/// The UTF-8 bytes of the hexadecimal text of `id`: one byte per digit.
proof fn lemma_hex_bytes(id: Seq<u8>)
    ensures
        is_ascii_chars(hex_of(id)),
        encode_utf8(hex_of(id)).len() == 2 * id.len(),
        forall|i: int|
            0 <= i < id.len() ==> #[trigger] encode_utf8(hex_of(id))[2 * i] == hex_digit(
                id[i] as int / 16,
            ) as u8 && encode_utf8(hex_of(id))[2 * i + 1] == hex_digit(id[i] as int % 16) as u8,
{
    let t = hex_of(id);
    assert forall|k: int| 0 <= k < t.len() implies (t[k] as u32) < 128 by {
        lemma_hex_digit_value(id[k / 2] as int / 16);
        lemma_hex_digit_value(id[k / 2] as int % 16);
    }
    assert(is_ascii_chars(t));
    is_ascii_chars_encode_utf8(t);
    assert forall|i: int| 0 <= i < id.len() implies #[trigger] encode_utf8(t)[2 * i]
        == hex_digit(id[i] as int / 16) as u8 && encode_utf8(t)[2 * i + 1] == hex_digit(
        id[i] as int % 16,
    ) as u8 by {
        assert(t[2 * i] == hex_digit(id[(2 * i) / 2] as int / 16));
        assert(t[2 * i + 1] == hex_digit(id[(2 * i + 1) / 2] as int % 16));
    }
}

/// Writing 32 bytes as hexadecimal and parsing the text back gives the
/// bytes back.
pub proof fn law_hex_id_round_trip(id: Seq<u8>)
    requires
        id.len() == 32,
    ensures
        parse_id_hex_result(encode_utf8(hex_of(id))) == Ok::<Seq<u8>, AppErrorView>(id),
{
    let b = encode_utf8(hex_of(id));
    lemma_hex_bytes(id);
    lemma_hex_digit_value(id[0] as int % 16);
    assert(b[2 * 0int] == hex_digit(id[0] as int / 16) as u8);
    assert(b[1] == hex_digit(id[0] as int % 16) as u8);
    assert(b[1] != 120);
    assert(id_body(b) == b);
    assert forall|i: int| 0 <= i < 32 implies #[trigger] chunk_value(b[2 * i], b[2 * i + 1])
        == Some(id[i]) by {
        assert(b[2 * i] == hex_digit(id[i] as int / 16) as u8);
        lemma_hex_digit_value(id[i] as int / 16);
        lemma_hex_digit_value(id[i] as int % 16);
    }
    assert(Seq::new(32, |i: int| chunk_value(b[2 * i], b[2 * i + 1]).unwrap()) =~= id);
}

/// Every id the index lists parses back, with the id routes, to the bytes
/// stored: decoding a stored list of 32-byte values succeeds, and each
/// listed text reads back as its value.
pub proof fn law_listed_ids_parse_back(items: Seq<ScValue>)
    requires
        forall|i: int|
            0 <= i < items.len() ==> (#[trigger] items[i] matches ScValue::Bytes(b) && b@.len()
                == 32),
    ensures
        hex_items(items) matches Ok(ids) && ids.len() == items.len() && forall|i: int|
            0 <= i < items.len() ==> parse_id_hex_result(encode_utf8(#[trigger] ids[i]))
                == Ok::<Seq<u8>, AppErrorView>(items[i]->Bytes_0@),
    decreases items.len(),
{
    if items.len() > 0 {
        let rest = items.drop_last();
        assert forall|i: int| 0 <= i < rest.len() implies (#[trigger] rest[i] matches ScValue::Bytes(
            b,
        ) && b@.len() == 32) by {
            assert(rest[i] == items[i]);
        }
        law_listed_ids_parse_back(rest);
        let last = items.last();
        assert(last == items[items.len() - 1]);
        law_hex_id_round_trip(last->Bytes_0@);
        let ids = hex_items(items)->Ok_0;
        assert forall|i: int| 0 <= i < items.len() implies parse_id_hex_result(
            encode_utf8(#[trigger] ids[i]),
        ) == Ok::<Seq<u8>, AppErrorView>(items[i]->Bytes_0@) by {
            if i < rest.len() {
                assert(items[i] == rest[i]);
            }
        }
    }
}

/// A stored list of ids decodes to their hexadecimal texts, which parse
/// back to the stored ids.
pub proof fn law_decoded_id_list_parses_back(v: ScValue)
    requires
        v matches ScValue::Vec(Some(items)) && forall|i: int|
            0 <= i < items@.len() ==> (#[trigger] items@[i] matches ScValue::Bytes(b) && b@.len()
                == 32),
    ensures
        decode_bytes_vec_result(v) matches Ok(ids) && forall|i: int|
            0 <= i < ids.len() ==> parse_id_hex_result(encode_utf8(#[trigger] ids[i])) is Ok,
{
    let items = v->Vec_0->0@;
    law_listed_ids_parse_back(items);
}


/// Whether `v` is the string with bytes `b`.
pub open spec fn is_string(v: ScValue, b: Seq<u8>) -> bool {
    v matches ScValue::String(x) && x@ == b
}

/// Whether `v` is how the registry stores metadata with these fields: a
/// struct is stored as a map keyed by its field names' symbols, in sorted
/// order, each field's string holding its UTF-8 bytes.
pub open spec fn stores_metadata(
    v: ScValue,
    name: Seq<char>,
    description: Seq<char>,
    image_ipfs: Seq<char>,
) -> bool {
    v matches ScValue::Mapping(Some(entries)) && {
        let e = entries@;
        &&& e.len() == 3
        &&& is_symbol(e[0].key, encode_utf8("description"@))
        &&& is_string(e[0].val, encode_utf8(description))
        &&& is_symbol(e[1].key, encode_utf8("image_ipfs"@))
        &&& is_string(e[1].val, encode_utf8(image_ipfs))
        &&& is_symbol(e[2].key, encode_utf8("name"@))
        &&& is_string(e[2].val, encode_utf8(name))
    }
}

proof fn lemma_lossy_text_of_text(s: Seq<char>)
    ensures
        lossy_text(encode_utf8(s)) == s,
{
    encode_utf8_valid_utf8(s);
    encode_utf8_decode_utf8(s);
}

/// Metadata as the registry stores it decodes to the same name,
/// description and IPFS URI.
pub proof fn law_stored_metadata_decodes(
    v: ScValue,
    name: Seq<char>,
    description: Seq<char>,
    image_ipfs: Seq<char>,
)
    requires
        stores_metadata(v, name, description, image_ipfs),
    ensures
        decode_event_metadata_result(v) == Ok::<(Seq<char>, Seq<char>, Seq<char>), AppErrorView>(
            (name, description, image_ipfs),
        ),
{
    reveal_strlit("name");
    reveal_strlit("description");
    reveal_strlit("image_ipfs");
    // Distinct field names have distinct UTF-8 bytes.
    lemma_lossy_text_of_text("name"@);
    lemma_lossy_text_of_text("description"@);
    lemma_lossy_text_of_text("image_ipfs"@);
    lemma_lossy_text_of_text(name);
    lemma_lossy_text_of_text(description);
    lemma_lossy_text_of_text(image_ipfs);
    let e = v->Mapping_0->0@;
    assert(e.drop_last().drop_last().drop_last() =~= Seq::<ScMapEntry>::empty());
    let none = MetaFields { name: None, description: None, image_ipfs: None };
    let f1 = MetaFields { description: Some(description), ..none };
    let f2 = MetaFields { image_ipfs: Some(image_ipfs), ..f1 };
    let f3 = MetaFields { name: Some(name), ..f2 };
    assert(scan_fields(e.drop_last().drop_last().drop_last()) == Ok::<MetaFields, AppErrorView>(
        none,
    ));
    assert(e.drop_last().drop_last().last() == e[0]);
    assert(scan_entry(none, e[0]) == Ok::<MetaFields, AppErrorView>(f1));
    assert(scan_fields(e.drop_last().drop_last()) == Ok::<MetaFields, AppErrorView>(f1));
    assert(e.drop_last().last() == e[1]);
    assert(scan_entry(f1, e[1]) == Ok::<MetaFields, AppErrorView>(f2));
    assert(scan_fields(e.drop_last()) == Ok::<MetaFields, AppErrorView>(f2));
    assert(scan_entry(f2, e[2]) == Ok::<MetaFields, AppErrorView>(f3));
    assert(scan_fields(e) == Ok::<MetaFields, AppErrorView>(f3));
}

/// Each family of storage entries has keys of its own: a ledger value
/// encodes at most one `DataKey`, so two different keys are never stored
/// under the same ledger value.
pub proof fn law_storage_keys_are_distinct(v: ScValue, k1: DataKey, k2: DataKey)
    requires
        encodes_key(v, k1),
        encodes_key(v, k2),
    ensures
        k1 == k2,
{
    broadcast use vstd::array::group_array_axioms;

    reveal_strlit("Events");
    reveal_strlit("EventMeta");
    reveal_strlit("EventOrganizer");
    reveal_strlit("EventOwners");
    reveal_strlit("UserBadges");
    encode_utf8_decode_utf8(variant_name(k1));
    encode_utf8_decode_utf8(variant_name(k2));
    let items = v->Vec_0->0@;
    assert(encode_utf8(variant_name(k1)) == items[0]->Symbol_0@);
    assert(encode_utf8(variant_name(k2)) == items[0]->Symbol_0@);
    assert(variant_name(k1).len() == variant_name(k2).len());
    match (k1, k2) {
        (DataKey::EventMeta(a), DataKey::EventMeta(b)) => {
            assert(a@ == b@);
            assert(a =~= b);
        },
        (DataKey::EventOrganizer(a), DataKey::EventOrganizer(b)) => {
            assert(a@ == b@);
            assert(a =~= b);
        },
        (DataKey::EventOwners(a), DataKey::EventOwners(b)) => {
            assert(a@ == b@);
            assert(a =~= b);
        },
        (DataKey::UserBadges(a), DataKey::UserBadges(b)) => {
            assert(items[1] == ScValue::Address(a));
        },
        (DataKey::Events, DataKey::Events) => {},
        _ => {},
    }
}

/// `c` in upper case, for an ASCII letter; any other character unchanged.
pub open spec fn ascii_upper_char(c: char) -> char {
    if 'a' <= c && c <= 'z' {
        ((c as int) - 32) as char
    } else {
        c
    }
}

/// `s` with its ASCII letters in upper case, as `str::to_uppercase` gives
/// it for ASCII text.
pub open spec fn ascii_upper(s: Seq<char>) -> Seq<char> {
    s.map_values(|c: char| ascii_upper_char(c))
}

/// Whether `s` is made of lower-case hexadecimal digits.
pub open spec fn is_lower_hex(s: Seq<char>) -> bool {
    forall|i: int| 0 <= i < s.len() ==> ('0' <= #[trigger] s[i] <= '9') || ('a' <= s[i] <= 'f')
}

/// An ASCII text of `off` prefix characters (none, or `0x`) and then 64
/// characters whose pairs spell the bytes of `id` parses to `id`.
proof fn lemma_parse_spelled(s: Seq<char>, id: Seq<u8>, off: int)
    requires
        is_ascii_chars(s),
        id.len() == 32,
        off == 0 || off == 2,
        s.len() == off + 64,
        off == 2 ==> s[0] == '0' && s[1] == 'x',
        off == 0 ==> s[1] != 'x',
        forall|i: int|
            0 <= i < 32 ==> #[trigger] chunk_value(s[off + 2 * i] as u8, s[off + 2 * i + 1] as u8)
                == Some(id[i]),
    ensures
        parse_id_hex_result(encode_utf8(s)) == Ok::<Seq<u8>, AppErrorView>(id),
{
    let b = encode_utf8(s);
    is_ascii_chars_encode_utf8(s);
    assert(b[1] == s[1] as u8);
    let body = id_body(b);
    assert(body =~= b.subrange(off, b.len() as int));
    assert forall|i: int| 0 <= i < 32 implies #[trigger] chunk_value(body[2 * i], body[2 * i + 1])
        == Some(id[i]) by {
        assert(body[2 * i] == b[off + 2 * i]);
        assert(body[2 * i + 1] == b[off + 2 * i + 1]);
        assert(b[off + 2 * i] == s[off + 2 * i] as u8);
        assert(b[off + 2 * i + 1] == s[off + 2 * i + 1] as u8);
    }
    assert(Seq::new(32, |i: int| chunk_value(body[2 * i], body[2 * i + 1]).unwrap()) =~= id);
}

/// `0x` followed by the hexadecimal text of 32 bytes parses back to the
/// bytes.
pub proof fn law_prefixed_hex_id_round_trip(id: Seq<u8>)
    requires
        id.len() == 32,
    ensures
        parse_id_hex_result(encode_utf8("0x"@ + hex_of(id))) == Ok::<Seq<u8>, AppErrorView>(id),
{
    reveal_strlit("0x");
    let s = "0x"@ + hex_of(id);
    assert forall|k: int| 0 <= k < s.len() implies '\0' <= #[trigger] s[k] <= '\u{7f}' by {
        if k >= 2 {
            assert(s[k] == hex_of(id)[k - 2]);
            lemma_hex_digit_value(id[(k - 2) / 2] as int / 16);
            lemma_hex_digit_value(id[(k - 2) / 2] as int % 16);
        }
    }
    assert forall|i: int| 0 <= i < 32 implies #[trigger] chunk_value(
        s[2 + 2 * i] as u8,
        s[2 + 2 * i + 1] as u8,
    ) == Some(id[i]) by {
        assert(s[2 + 2 * i] == hex_of(id)[2 * i]);
        assert(s[2 + 2 * i + 1] == hex_of(id)[2 * i + 1]);
        lemma_hex_digit_value(id[i] as int / 16);
        lemma_hex_digit_value(id[i] as int % 16);
    }
    lemma_parse_spelled(s, id, 2);
}

/// The hexadecimal text of 32 bytes in upper case parses back to the
/// bytes.
pub proof fn law_upper_case_hex_id_round_trip(id: Seq<u8>)
    requires
        id.len() == 32,
    ensures
        parse_id_hex_result(encode_utf8(ascii_upper(hex_of(id)))) == Ok::<Seq<u8>, AppErrorView>(
            id,
        ),
{
    let s = ascii_upper(hex_of(id));
    assert forall|k: int| 0 <= k < s.len() implies '\0' <= #[trigger] s[k] <= '\u{7f}' by {
        lemma_hex_digit_value(id[k / 2] as int / 16);
        lemma_hex_digit_value(id[k / 2] as int % 16);
    }
    assert(s[1] != 'x') by {
        lemma_hex_digit_value(id[0] as int % 16);
    }
    assert forall|i: int| 0 <= i < 32 implies #[trigger] chunk_value(
        s[0 + 2 * i] as u8,
        s[0 + 2 * i + 1] as u8,
    ) == Some(id[i]) by {
        assert(s[2 * i] == ascii_upper_char(hex_digit(id[i] as int / 16)));
        assert(s[2 * i + 1] == ascii_upper_char(hex_digit(id[i] as int % 16)));
    }
    lemma_parse_spelled(s, id, 0);
}

/// Conversely, 64 lower-case hexadecimal digits that parse to some bytes
/// are those bytes' hexadecimal text.
pub proof fn law_lower_hex_id_is_canonical(s: Seq<char>, id: Seq<u8>)
    requires
        s.len() == 64,
        is_lower_hex(s),
        parse_id_hex_result(encode_utf8(s)) == Ok::<Seq<u8>, AppErrorView>(id),
    ensures
        hex_of(id) == s,
{
    assert(is_ascii_chars(s));
    is_ascii_chars_encode_utf8(s);
    let b = encode_utf8(s);
    assert(b[1] == s[1] as u8);
    assert(id_body(b) == b);
    assert forall|k: int| 0 <= k < 64 implies #[trigger] hex_of(id)[k] == s[k] by {
        let i = k / 2;
        assert(b[2 * i] == s[2 * i] as u8);
        assert(b[2 * i + 1] == s[2 * i + 1] as u8);
        assert(id[i] == chunk_value(b[2 * i], b[2 * i + 1]).unwrap());
    }
    assert(hex_of(id) =~= s);
}

/// The metadata field that a map entry sets, if any: the field whose name
/// its symbol key spells, byte for byte.
pub open spec fn field_name(e: ScMapEntry) -> Option<Seq<char>> {
    match e.key {
        ScValue::Symbol(k) => if k@ == encode_utf8("name"@) {
            Some("name"@)
        } else if k@ == encode_utf8("description"@) {
            Some("description"@)
        } else if k@ == encode_utf8("image_ipfs"@) {
            Some("image_ipfs"@)
        } else {
            None
        },
        _ => None,
    }
}

/// Whether no two entries set the same metadata field.
pub open spec fn fields_distinct(entries: Seq<ScMapEntry>) -> bool {
    forall|i: int, j: int|
        0 <= i < entries.len() && 0 <= j < entries.len() && i != j && #[trigger] field_name(
            entries[i],
        ) is Some ==> field_name(entries[i]) != #[trigger] field_name(entries[j])
}

/// Whether some entry sets field `f`.
pub open spec fn has_field(entries: Seq<ScMapEntry>, f: Seq<char>) -> bool {
    exists|e: ScMapEntry| entries.contains(e) && #[trigger] field_name(e) == Some(f)
}

/// The entry that sets field `f`.
pub open spec fn field_entry(entries: Seq<ScMapEntry>, f: Seq<char>) -> ScMapEntry {
    choose|e: ScMapEntry| entries.contains(e) && #[trigger] field_name(e) == Some(f)
}

/// Whether some entry sets a field to a value that is not a string.
pub open spec fn has_bad_field(entries: Seq<ScMapEntry>) -> bool {
    exists|e: ScMapEntry|
        entries.contains(e) && #[trigger] field_name(e) is Some && string_item(e.val) is Err
}

/// The text that the entries give field `f`, if some entry sets it.
pub open spec fn field_text(entries: Seq<ScMapEntry>, f: Seq<char>) -> Option<Seq<char>> {
    if has_field(entries, f) {
        Some(string_item(field_entry(entries, f).val)->Ok_0)
    } else {
        None
    }
}

/// What metadata the entries hold, read field by field: which entries set
/// the fields decides it, not their order nor the other entries.
pub open spec fn metadata_of_fields(entries: Seq<ScMapEntry>) -> Result<
    (Seq<char>, Seq<char>, Seq<char>),
    AppErrorView,
> {
    if has_bad_field(entries) {
        Err(AppErrorView::Decode("expected string"@))
    } else if !has_field(entries, "name"@) {
        Err(AppErrorView::Decode("missing name"@))
    } else if !has_field(entries, "description"@) {
        Err(AppErrorView::Decode("missing description"@))
    } else if !has_field(entries, "image_ipfs"@) {
        Err(AppErrorView::Decode("missing image_ipfs"@))
    } else {
        Ok(
            (
                field_text(entries, "name"@)->0,
                field_text(entries, "description"@)->0,
                field_text(entries, "image_ipfs"@)->0,
            ),
        )
    }
}

proof fn lemma_field_entry_unique(entries: Seq<ScMapEntry>, e1: ScMapEntry, e2: ScMapEntry)
    requires
        fields_distinct(entries),
        entries.contains(e1),
        entries.contains(e2),
        field_name(e1) is Some,
        field_name(e1) == field_name(e2),
    ensures
        e1 == e2,
{
    let i = choose|i: int| 0 <= i < entries.len() && entries[i] == e1;
    let j = choose|j: int| 0 <= j < entries.len() && entries[j] == e2;
    if i != j {
        assert(field_name(entries[i]) != field_name(entries[j]));
    }
}

proof fn lemma_scan_fields_by_field(entries: Seq<ScMapEntry>)
    requires
        fields_distinct(entries),
    ensures
        scan_fields(entries) == (if has_bad_field(entries) {
            Err::<MetaFields, AppErrorView>(AppErrorView::Decode("expected string"@))
        } else {
            Ok::<MetaFields, AppErrorView>(
                MetaFields {
                    name: field_text(entries, "name"@),
                    description: field_text(entries, "description"@),
                    image_ipfs: field_text(entries, "image_ipfs"@),
                },
            )
        }),
    decreases entries.len(),
{
    reveal_strlit("name");
    reveal_strlit("description");
    reveal_strlit("image_ipfs");
    assert("name"@.len() == 4 && "description"@.len() == 11 && "image_ipfs"@.len() == 10);
    if entries.len() == 0 {
        assert(!has_bad_field(entries));
        assert(!has_field(entries, "name"@));
        assert(!has_field(entries, "description"@));
        assert(!has_field(entries, "image_ipfs"@));
    } else {
        let p = entries.drop_last();
        let x = entries.last();
        assert(entries == p.push(x));
        assert(fields_distinct(p)) by {
            assert forall|i: int, j: int|
                0 <= i < p.len() && 0 <= j < p.len() && i != j && #[trigger] field_name(p[i])
                    is Some implies field_name(p[i]) != #[trigger] field_name(p[j]) by {
                assert(p[i] == entries[i] && p[j] == entries[j]);
            }
        }
        lemma_scan_fields_by_field(p);
        assert(entries.contains(x)) by {
            assert(entries[entries.len() - 1] == x);
        }
        assert forall|e: ScMapEntry| #[trigger] entries.contains(e) implies p.contains(e) || e == x by {
            let k = choose|k: int| 0 <= k < entries.len() && entries[k] == e;
            if k < p.len() {
                assert(p[k] == e);
            }
        }
        assert forall|e: ScMapEntry| #[trigger] p.contains(e) implies entries.contains(e) by {
            let k = choose|k: int| 0 <= k < p.len() && p[k] == e;
            assert(entries[k] == e);
        }
        if has_bad_field(p) {
            let e = choose|e: ScMapEntry|
                p.contains(e) && #[trigger] field_name(e) is Some && string_item(e.val) is Err;
            assert(entries.contains(e));
        } else {
            // The field `x` sets, if any, is set by no entry of `p`.
            if field_name(x) is Some {
                assert forall|e: ScMapEntry| #[trigger] p.contains(e) implies field_name(e)
                    != field_name(x) by {
                    let k = choose|k: int| 0 <= k < p.len() && p[k] == e;
                    assert(entries[k] == e);
                    assert(entries[entries.len() - 1] == x);
                }
            }
            assert forall|f: Seq<char>| field_name(x) != Some(f) implies (has_field(entries, f)
                == has_field(p, f) && (has_field(p, f) ==> field_entry(entries, f) == field_entry(
                p,
                f,
            ))) by {
                if has_field(entries, f) {
                    let e = field_entry(entries, f);
                    assert(p.contains(e));
                }
                if has_field(p, f) {
                    let e = field_entry(p, f);
                    assert(entries.contains(e));
                    lemma_field_entry_unique(entries, e, field_entry(entries, f));
                }
            }
            let acc = MetaFields {
                name: field_text(p, "name"@),
                description: field_text(p, "description"@),
                image_ipfs: field_text(p, "image_ipfs"@),
            };
            assert(scan_fields(entries) == scan_entry(acc, x));
            if field_name(x) is Some {
                let f = field_name(x)->0;
                assert(has_field(entries, f));
                lemma_field_entry_unique(entries, x, field_entry(entries, f));
                if string_item(x.val) is Err {
                    assert(has_bad_field(entries));
                } else {
                    assert(!has_bad_field(entries));
                    assert(field_text(entries, f) == Some(string_item(x.val)->Ok_0));
                    if f == "name"@ {
                        assert(field_name(x) != Some("description"@));
                        assert(field_name(x) != Some("image_ipfs"@));
                    } else if f == "description"@ {
                        assert(field_name(x) != Some("name"@));
                        assert(field_name(x) != Some("image_ipfs"@));
                    } else {
                        assert(field_name(x) != Some("name"@));
                        assert(field_name(x) != Some("description"@));
                    }
                }
            } else {
                assert(!has_bad_field(entries));
                assert(scan_entry(acc, x) == Ok::<MetaFields, AppErrorView>(acc));
            }
        }
    }
}

/// Decoding metadata reads it field by field: when no two entries set the
/// same field, the result is what the entries setting the fields give,
/// whatever their order and whatever other entries the map holds.
pub proof fn law_metadata_decodes_by_field(entries: Seq<ScMapEntry>, v: ScValue)
    requires
        v matches ScValue::Mapping(Some(m)) && m@ == entries,
        fields_distinct(entries),
    ensures
        decode_event_metadata_result(v) == metadata_of_fields(entries),
{
    lemma_scan_fields_by_field(entries);
}

/// Two maps whose entries set the same fields the same way, each field at
/// most once, decode to the same metadata: neither the order of the entries
/// nor entries that set no field matter.
pub proof fn law_metadata_ignores_order_and_other_entries(v1: ScValue, v2: ScValue)
    requires
        v1 matches ScValue::Mapping(Some(m1)) && fields_distinct(m1@),
        v2 matches ScValue::Mapping(Some(m2)) && fields_distinct(m2@),
        forall|e: ScMapEntry| #[trigger] field_name(e) is Some ==> (v1->Mapping_0->0@.contains(e)
            <==> v2->Mapping_0->0@.contains(e)),
    ensures
        decode_event_metadata_result(v1) == decode_event_metadata_result(v2),
{
    let e1 = v1->Mapping_0->0@;
    let e2 = v2->Mapping_0->0@;
    law_metadata_decodes_by_field(e1, v1);
    law_metadata_decodes_by_field(e2, v2);
    assert(has_bad_field(e1) == has_bad_field(e2)) by {
        if has_bad_field(e1) {
            let e = choose|e: ScMapEntry|
                e1.contains(e) && #[trigger] field_name(e) is Some && string_item(e.val) is Err;
            assert(e2.contains(e));
        }
        if has_bad_field(e2) {
            let e = choose|e: ScMapEntry|
                e2.contains(e) && #[trigger] field_name(e) is Some && string_item(e.val) is Err;
            assert(e1.contains(e));
        }
    }
    assert forall|f: Seq<char>| has_field(e1, f) == has_field(e2, f) && (has_field(e1, f)
        ==> field_entry(e1, f) == field_entry(e2, f)) by {
        if has_field(e1, f) {
            let e = field_entry(e1, f);
            assert(e2.contains(e));
        }
        if has_field(e2, f) {
            let e = field_entry(e2, f);
            assert(e1.contains(e));
            lemma_field_entry_unique(e1, e, field_entry(e1, f));
        }
    }
    assert(field_text(e1, "name"@) == field_text(e2, "name"@));
    assert(field_text(e1, "description"@) == field_text(e2, "description"@));
    assert(field_text(e1, "image_ipfs"@) == field_text(e2, "image_ipfs"@));
}

/// Whether no two entries have the same symbol key.
pub open spec fn symbol_keys_distinct(entries: Seq<ScMapEntry>) -> bool {
    forall|i: int, j: int|
        0 <= i < entries.len() && 0 <= j < entries.len() && i != j ==> !(
        #[trigger] entries[i].key matches ScValue::Symbol(a) && #[trigger] entries[j].key matches ScValue::Symbol(b)
            && a@ == b@)
}

/// A map whose symbol keys are pairwise distinct sets each metadata field
/// at most once; so two such maps holding the same field entries (one a
/// reordering of the other, with entries under other keys added or taken
/// away) decode alike, by `law_metadata_ignores_order_and_other_entries`.
pub proof fn law_distinct_symbol_keys_set_fields_once(entries: Seq<ScMapEntry>)
    requires
        symbol_keys_distinct(entries),
    ensures
        fields_distinct(entries),
{
    assert forall|i: int, j: int|
        0 <= i < entries.len() && 0 <= j < entries.len() && i != j && #[trigger] field_name(
            entries[i],
        ) is Some implies field_name(entries[i]) != #[trigger] field_name(entries[j]) by {
        if field_name(entries[i]) == field_name(entries[j]) {
            reveal_strlit("name");
            reveal_strlit("description");
            reveal_strlit("image_ipfs");
            assert("name"@.len() == 4 && "description"@.len() == 11 && "image_ipfs"@.len() == 10);
            assert(entries[i].key is Symbol && entries[j].key is Symbol);
            assert(entries[i].key->Symbol_0@ == entries[j].key->Symbol_0@);
        }
    }
}

proof fn lemma_strkey_items_each(items: Seq<ScValue>)
    ensures
        (forall|i: int| 0 <= i < items.len() ==> #[trigger] address_item(items[i]) is Ok)
            ==> strkey_items(items) == Ok::<Seq<Seq<char>>, AppErrorView>(
            Seq::new(items.len(), |i: int| address_item(items[i])->Ok_0),
        ),
        (exists|i: int| 0 <= i < items.len() && #[trigger] address_item(items[i]) is Err)
            ==> strkey_items(items) == Err::<Seq<Seq<char>>, AppErrorView>(
            AppErrorView::Decode("expected address"@),
        ),
    decreases items.len(),
{
    if items.len() > 0 {
        let p = items.drop_last();
        lemma_strkey_items_each(p);
        assert forall|i: int| 0 <= i < p.len() implies #[trigger] p[i] == items[i] by {}
        if forall|i: int| 0 <= i < items.len() ==> #[trigger] address_item(items[i]) is Ok {
            assert(forall|i: int| 0 <= i < p.len() ==> #[trigger] address_item(p[i]) is Ok) by {
                assert forall|i: int| 0 <= i < p.len() implies #[trigger] address_item(p[i]) is Ok by {
                    assert(address_item(items[i]) is Ok);
                }
            }
            assert(address_item(items[items.len() - 1]) is Ok);
            assert(Seq::new(p.len(), |i: int| address_item(p[i])->Ok_0).push(
                address_item(items.last())->Ok_0,
            ) =~= Seq::new(items.len(), |i: int| address_item(items[i])->Ok_0));
        } else {
            let k = choose|k: int| 0 <= k < items.len() && #[trigger] address_item(items[k]) is Err;
            if k < p.len() {
                assert(address_item(p[k]) is Err);
            } else {
                assert(address_item(items.last()) is Err);
            }
        }
    } else {
        assert(Seq::new(items.len(), |i: int| address_item(items[i])->Ok_0) =~= Seq::<Seq<char>>::empty());
    }
}

/// Every stored collector is listed, in order, none dropped or added: a
/// stored list of addresses decodes to exactly one strkey per address, the
/// `i`-th being the strkey of the `i`-th address; a list holding anything
/// else than addresses is refused, and so is a value that is no list.
pub proof fn law_every_stored_address_is_listed(v: ScValue)
    ensures
        match v {
            ScValue::Vec(Some(items)) => {
                &&& (forall|i: int| 0 <= i < items@.len() ==> #[trigger] items@[i] is Address)
                    ==> (decode_address_vec_result(v) matches Ok(out) && out.len() == items@.len()
                    && forall|i: int|
                    0 <= i < items@.len() ==> #[trigger] out[i] == match items@[i] {
                        ScValue::Address(Address::Account(k)) => account_strkey_text(k@),
                        ScValue::Address(Address::Contract(h)) => contract_strkey_text(h@),
                        _ => Seq::empty(),
                    })
                &&& (exists|i: int| 0 <= i < items@.len() && !(#[trigger] items@[i] is Address))
                    ==> decode_address_vec_result(v) == Err::<Seq<Seq<char>>, AppErrorView>(
                    AppErrorView::Decode("expected address"@),
                )
            },
            ScValue::Vec(None) => decode_address_vec_result(v) == Ok::<
                Seq<Seq<char>>,
                AppErrorView,
            >(Seq::empty()),
            _ => decode_address_vec_result(v) == Err::<Seq<Seq<char>>, AppErrorView>(
                AppErrorView::Decode("expected vec"@),
            ),
        },
{
    if let ScValue::Vec(Some(items)) = v {
        let s = items@;
        lemma_strkey_items_each(s);
        if forall|i: int| 0 <= i < s.len() ==> #[trigger] s[i] is Address {
            assert forall|i: int| 0 <= i < s.len() implies #[trigger] address_item(s[i]) is Ok by {
                assert(s[i] is Address);
            }
        }
        if exists|i: int| 0 <= i < s.len() && !(#[trigger] s[i] is Address) {
            let k = choose|k: int| 0 <= k < s.len() && !(#[trigger] s[k] is Address);
            assert(address_item(s[k]) is Err);
        }
    }
}

proof fn lemma_hex_items_each(items: Seq<ScValue>)
    ensures
        (forall|i: int| 0 <= i < items.len() ==> #[trigger] bytes_item(items[i]) is Ok)
            ==> hex_items(items) == Ok::<Seq<Seq<char>>, AppErrorView>(
            Seq::new(items.len(), |i: int| bytes_item(items[i])->Ok_0),
        ),
        (exists|i: int| 0 <= i < items.len() && #[trigger] bytes_item(items[i]) is Err)
            ==> hex_items(items) == Err::<Seq<Seq<char>>, AppErrorView>(
            AppErrorView::Decode("expected bytes"@),
        ),
    decreases items.len(),
{
    if items.len() > 0 {
        let p = items.drop_last();
        lemma_hex_items_each(p);
        assert forall|i: int| 0 <= i < p.len() implies #[trigger] p[i] == items[i] by {}
        if forall|i: int| 0 <= i < items.len() ==> #[trigger] bytes_item(items[i]) is Ok {
            assert(forall|i: int| 0 <= i < p.len() ==> #[trigger] bytes_item(p[i]) is Ok) by {
                assert forall|i: int| 0 <= i < p.len() implies #[trigger] bytes_item(p[i]) is Ok by {
                    assert(bytes_item(items[i]) is Ok);
                }
            }
            assert(bytes_item(items[items.len() - 1]) is Ok);
            assert(Seq::new(p.len(), |i: int| bytes_item(p[i])->Ok_0).push(
                bytes_item(items.last())->Ok_0,
            ) =~= Seq::new(items.len(), |i: int| bytes_item(items[i])->Ok_0));
        } else {
            let k = choose|k: int| 0 <= k < items.len() && #[trigger] bytes_item(items[k]) is Err;
            if k < p.len() {
                assert(bytes_item(p[k]) is Err);
            } else {
                assert(bytes_item(items.last()) is Err);
            }
        }
    } else {
        assert(Seq::new(items.len(), |i: int| bytes_item(items[i])->Ok_0) =~= Seq::<Seq<char>>::empty());
    }
}

/// Every stored id is listed, in order, none dropped or added: a stored
/// list of byte strings decodes to exactly one text per item, the `i`-th
/// being the hexadecimal text of the `i`-th; a list holding anything else
/// is refused, and so is a value that is no list.
pub proof fn law_every_stored_id_is_listed(v: ScValue)
    ensures
        match v {
            ScValue::Vec(Some(items)) => {
                &&& (forall|i: int| 0 <= i < items@.len() ==> #[trigger] items@[i] is Bytes)
                    ==> (decode_bytes_vec_result(v) matches Ok(out) && out.len() == items@.len()
                    && forall|i: int|
                    0 <= i < items@.len() ==> #[trigger] out[i] == hex_of(items@[i]->Bytes_0@))
                &&& (exists|i: int| 0 <= i < items@.len() && !(#[trigger] items@[i] is Bytes))
                    ==> decode_bytes_vec_result(v) == Err::<Seq<Seq<char>>, AppErrorView>(
                    AppErrorView::Decode("expected bytes"@),
                )
            },
            ScValue::Vec(None) => decode_bytes_vec_result(v) == Ok::<
                Seq<Seq<char>>,
                AppErrorView,
            >(Seq::empty()),
            _ => decode_bytes_vec_result(v) == Err::<Seq<Seq<char>>, AppErrorView>(
                AppErrorView::Decode("expected vec"@),
            ),
        },
{
    if let ScValue::Vec(Some(items)) = v {
        let s = items@;
        lemma_hex_items_each(s);
        if forall|i: int| 0 <= i < s.len() ==> #[trigger] s[i] is Bytes {
            assert forall|i: int| 0 <= i < s.len() implies #[trigger] bytes_item(s[i]) is Ok by {
                assert(s[i] is Bytes);
            }
        }
        if exists|i: int| 0 <= i < s.len() && !(#[trigger] s[i] is Bytes) {
            let k = choose|k: int| 0 <= k < s.len() && !(#[trigger] s[k] is Bytes);
            assert(bytes_item(s[k]) is Err);
        }
    }
}

/// Whether the byte is an ASCII hexadecimal digit, in either case.
pub open spec fn is_hex_byte(c: u8) -> bool {
    (48 <= c <= 57) || (97 <= c <= 102) || (65 <= c <= 70)
}

/// The value of an ASCII hexadecimal digit.
pub open spec fn hex_byte_value(c: u8) -> int {
    if 48 <= c <= 57 {
        c - 48
    } else if 97 <= c <= 102 {
        c - 97 + 10
    } else {
        c - 65 + 10
    }
}

/// The text of an id after one leading `0x`, if it has one.
pub open spec fn without_0x(b: Seq<u8>) -> Seq<u8> {
    if b.len() >= 2 && b[0] == 48 && b[1] == 120 {
        b.subrange(2, b.len() as int)
    } else {
        b
    }
}

/// How an id parses, by its text alone: after an optional `0x`, 64
/// hexadecimal digits (either case) give the 32 bytes they spell, high
/// digit first; any other length is refused as not 32-byte hex, and 64
/// characters that are not all hexadecimal digits as bad hex.
pub proof fn law_id_parses_from_any_hex_text(b: Seq<u8>)
    ensures
        without_0x(b).len() != 64 ==> parse_id_hex_result(b) == Err::<Seq<u8>, AppErrorView>(
            AppErrorView::BadRequest("event id must be 32-byte hex"@),
        ),
        without_0x(b).len() == 64 && (forall|k: int|
            0 <= k < 64 ==> #[trigger] is_hex_byte(without_0x(b)[k])) ==> parse_id_hex_result(b)
            == Ok::<Seq<u8>, AppErrorView>(
            Seq::new(
                32,
                |i: int|
                    (16 * hex_byte_value(without_0x(b)[2 * i]) + hex_byte_value(
                        without_0x(b)[2 * i + 1],
                    )) as u8,
            ),
        ),
        without_0x(b).len() == 64 && (exists|k: int|
            0 <= k < 64 && !#[trigger] is_hex_byte(without_0x(b)[k])) ==> parse_id_hex_result(b)
            == Err::<Seq<u8>, AppErrorView>(AppErrorView::BadRequest("bad hex"@)),
{
    let body = id_body(b);
    assert(body == without_0x(b));
    if body.len() == 64 {
        if forall|k: int| 0 <= k < 64 ==> #[trigger] is_hex_byte(body[k]) {
            assert forall|i: int| 0 <= i < 32 implies #[trigger] chunk_value(body[2 * i], body[2 * i + 1])
                == Some((16 * hex_byte_value(body[2 * i]) + hex_byte_value(body[2 * i + 1])) as u8) by {
                assert(is_hex_byte(body[2 * i]));
                assert(is_hex_byte(body[2 * i + 1]));
            }
            assert(Seq::new(32, |i: int| chunk_value(body[2 * i], body[2 * i + 1]).unwrap()) =~= Seq::new(
                32,
                |i: int| (16 * hex_byte_value(body[2 * i]) + hex_byte_value(body[2 * i + 1])) as u8,
            ));
        }
        if exists|k: int| 0 <= k < 64 && !#[trigger] is_hex_byte(body[k]) {
            let k = choose|k: int| 0 <= k < 64 && !#[trigger] is_hex_byte(body[k]);
            let i = k / 2;
            assert(k == 2 * i || k == 2 * i + 1);
            assert(chunk_value(body[2 * i], body[2 * i + 1]) is None);
            assert(!chunks_valid(body));
        }
    }
    assert(body == without_0x(b));
}

/// The decimal text of `n`, without leading zeros.
pub open spec fn decimal_text(n: nat) -> Seq<u8>
    decreases n,
{
    if n < 10 {
        seq![(48 + n) as u8]
    } else {
        decimal_text(n / 10).push((48 + n % 10) as u8)
    }
}

proof fn lemma_decimal_text(n: nat)
    ensures
        all_digits(decimal_text(n)),
        decimal_value(decimal_text(n)) == n,
        decimal_text(n).len() > 0,
        decimal_text(n)[0] != 43,
    decreases n,
{
    if n >= 10 {
        lemma_decimal_text(n / 10);
        let t = decimal_text(n / 10);
        let d = decimal_text(n);
        assert(d.drop_last() =~= t);
        assert(10 * (n / 10) + n % 10 == n && 0 <= n % 10 < 10) by (nonlinear_arith);
        assert(d.last() == (48 + n % 10) as u8);
        assert(decimal_value(d) == 10 * decimal_value(t) + (d.last() - 48));
        assert forall|i: int| 0 <= i < d.len() implies 48 <= #[trigger] d[i] <= 57 by {
            if i < t.len() {
                assert(d[i] == t[i]);
            }
        }
    } else {
        let d = decimal_text(n);
        assert(d.drop_last() =~= Seq::<u8>::empty());
        assert(d.last() == (48 + n) as u8);
        assert(decimal_value(d) == 10 * decimal_value(d.drop_last()) + (d.last() - 48));
    }
}

/// A port reads as its decimal text says: the text of every number up to
/// 65535, with or without a leading `+`, reads as that number; the text of
/// a larger number, an empty text, and a text with a character that is not
/// a decimal digit read as no port.
pub proof fn law_port_reads_decimal_text(n: nat, b: Seq<u8>)
    ensures
        n <= 65535 ==> parse_u16_result(decimal_text(n)) == Some(n as u16),
        n <= 65535 ==> parse_u16_result(seq![43u8] + decimal_text(n)) == Some(n as u16),
        n > 65535 ==> parse_u16_result(decimal_text(n)) is None,
        parse_u16_result(Seq::empty()) is None,
        (exists|k: int| 0 <= k < b.len() && !(48 <= #[trigger] b[k] <= 57) && !(k == 0 && b[k] == 43))
            ==> parse_u16_result(b) is None,
{
    lemma_decimal_text(n);
    let t = decimal_text(n);
    assert((seq![43u8] + t).drop_first() =~= t);
    if exists|k: int| 0 <= k < b.len() && !(48 <= #[trigger] b[k] <= 57) && !(k == 0 && b[k] == 43) {
        let k = choose|k: int| 0 <= k < b.len() && !(48 <= #[trigger] b[k] <= 57) && !(k == 0
            && b[k] == 43);
        if b.len() > 0 && b[0] == 43 {
            assert(b.drop_first()[k - 1] == b[k]);
        }
    }
}

} // verus!
