//! JSON values, as `serde_json` holds, reads and writes them.
//!
//! `serde_json` does the work. This module says over plain sequences what a
//! value holds, and gives each call that the library makes a contract.

use vstd::prelude::*;

verus! {

// ---------------------------------------------------------------------------
// What a value holds
// ---------------------------------------------------------------------------

/// A JSON value. Of a value that is neither a string nor an object only its
/// compact text is kept.
pub enum Json {
    /// A string.
    Text(Seq<char>),
    /// An object: its entries, ordered by key.
    Object(Seq<(Seq<char>, Json)>),
    /// `null`, a boolean, a number or an array, written compactly.
    Other(Seq<char>),
}

/// A lower-case hexadecimal digit.
pub open spec fn hex_digit(d: int) -> char {
    if d < 10 {
        (('0' as u32) + d) as char
    } else {
        (('a' as u32) + (d - 10)) as char
    }
}

/// How one character is written inside a JSON string.
pub open spec fn escaped(c: char) -> Seq<char> {
    let u = c as u32 as int;
    if c == '"' || c == '\\' {
        seq!['\\', c]
    } else if u == 8 {
        seq!['\\', 'b']
    } else if u == 9 {
        seq!['\\', 't']
    } else if u == 10 {
        seq!['\\', 'n']
    } else if u == 12 {
        seq!['\\', 'f']
    } else if u == 13 {
        seq!['\\', 'r']
    } else if u < 0x20 {
        seq!['\\', 'u', '0', '0', hex_digit(u / 16), hex_digit(u % 16)]
    } else {
        seq![c]
    }
}

/// The characters of `s` as they are written inside a JSON string.
pub open spec fn escaped_text(s: Seq<char>) -> Seq<char>
    decreases s.len(),
{
    if s.len() == 0 {
        Seq::empty()
    } else {
        escaped_text(s.drop_last()) + escaped(s.last())
    }
}

/// `s` as a JSON string.
pub open spec fn quoted(s: Seq<char>) -> Seq<char> {
    seq!['"'] + escaped_text(s) + seq!['"']
}

/// The compact text of a value.
pub open spec fn json_text(j: Json) -> Seq<char>
    decreases j,
{
    match j {
        Json::Text(s) => quoted(s),
        Json::Object(entries) => seq!['{'] + entries_text(entries) + seq!['}'],
        Json::Other(text) => text,
    }
}

/// The compact text of an object's entries, with a comma between them.
pub open spec fn entries_text(entries: Seq<(Seq<char>, Json)>) -> Seq<char>
    decreases entries,
{
    if entries.len() == 0 {
        Seq::empty()
    } else {
        let head = entries_text(entries.drop_last());
        let comma = if entries.len() == 1 {
            Seq::empty()
        } else {
            seq![',']
        };
        head + comma + quoted(entries.last().0) + seq![':'] + json_text(entries.last().1)
    }
}

/// `a` comes before `b` when characters are compared by code point, first
/// difference first.
pub open spec fn text_before(a: Seq<char>, b: Seq<char>) -> bool
    decreases a.len(),
{
    if b.len() == 0 {
        false
    } else if a.len() == 0 {
        true
    } else if a[0] == b[0] {
        text_before(a.skip(1), b.skip(1))
    } else {
        (a[0] as u32) < (b[0] as u32)
    }
}

/// The entries after `key` was given the value `value`: in the place of the
/// value that the key had, or as a new entry where the order puts it.
pub open spec fn with_entry(entries: Seq<(Seq<char>, Json)>, key: Seq<char>, value: Json) -> Seq<
    (Seq<char>, Json),
>
    decreases entries.len(),
{
    if entries.len() == 0 {
        seq![(key, value)]
    } else if entries.last().0 == key {
        entries.drop_last().push((key, value))
    } else if text_before(entries.last().0, key) {
        entries.push((key, value))
    } else {
        with_entry(entries.drop_last(), key, value).push(entries.last())
    }
}

/// The entries stand in the order of their keys, no key twice.
pub open spec fn keys_ascend(entries: Seq<(Seq<char>, Json)>) -> bool {
    forall|i: int, j: int|
        0 <= i < j < entries.len() ==> text_before(#[trigger] entries[i].0, #[trigger] entries[j].0)
}

/// Every value is a string.
pub open spec fn only_texts(entries: Seq<(Seq<char>, Json)>) -> bool {
    forall|i: int| 0 <= i < entries.len() ==> (#[trigger] entries[i]).1 is Text
}

// ---------------------------------------------------------------------------
// The types of serde_json
// ---------------------------------------------------------------------------

/// `serde_json::Value`, carried and never looked into.
#[verifier::external_type_specification]
#[verifier::external_body]
pub struct ExJsonValue(serde_json::Value);

/// `serde_json::Map`, the collection behind a JSON object.
#[verifier::external_type_specification]
#[verifier::external_body]
#[verifier::reject_recursive_types(K)]
#[verifier::reject_recursive_types(V)]
pub struct ExJsonMap<K, V>(serde_json::Map<K, V>);

/// What a `serde_json::Value` holds.
pub uninterp spec fn value_view(v: serde_json::Value) -> Json;

/// The entries of a `serde_json::Map`, in the order in which it walks them.
pub uninterp spec fn map_view(m: serde_json::Map<String, serde_json::Value>) -> Seq<
    (Seq<char>, Json),
>;

/// The value that `serde_json::from_str` reads from a text; `None` where the
/// text is no JSON value.
pub uninterp spec fn parsed_json(text: Seq<char>) -> Option<Json>;

/// A key by which `serde_json` marks a text that it is to read as a JSON value
/// of its own. An object that begins with it is not read as an object.
pub const RAW_VALUE_TOKEN: &'static str = "$serde_json::private::RawValue";

/// The entries are those of an object of strings, ordered by key, that is read
/// as an object.
pub open spec fn readable(entries: Seq<(Seq<char>, Json)>) -> bool {
    &&& keys_ascend(entries)
    &&& only_texts(entries)
    &&& entries.len() > 0 ==> entries[0].0 != RAW_VALUE_TOKEN@
}

/// Where `text` is the compact text of a readable object, `r` is that object.
pub open spec fn reads_back(text: Seq<char>, r: Option<serde_json::Value>) -> bool {
    forall|entries: Seq<(Seq<char>, Json)>|
        #![trigger json_text(Json::Object(entries))]
        text == json_text(Json::Object(entries)) && readable(entries) ==> (r matches Some(v)
            && value_view(v) == Json::Object(entries))
}

/// `serde_json::Map::new`: an object without entries.
#[verifier::external_body]
pub(crate) fn new_object() -> (m: serde_json::Map<String, serde_json::Value>)
    ensures
        map_view(m) == Seq::<(Seq<char>, Json)>::empty(),
{
    serde_json::Map::new()
}

/// `serde_json::Map::insert`: gives `key` the value `value`. The map is backed
/// by a `BTreeMap`, so its entries stay ordered by key and a key that it
/// already has keeps its place.
#[verifier::external_body]
pub(crate) fn insert_entry(
    m: &mut serde_json::Map<String, serde_json::Value>,
    key: String,
    value: serde_json::Value,
)
    ensures
        map_view(*final(m)) == with_entry(map_view(*old(m)), key@, value_view(value)),
{
    m.insert(key, value);
}

/// `serde_json::Value::Object`: the value whose entries are those of the map.
#[verifier::external_body]
pub(crate) fn object_value(m: serde_json::Map<String, serde_json::Value>) -> (v: serde_json::Value)
    ensures
        value_view(v) == Json::Object(map_view(m)),
{
    serde_json::Value::Object(m)
}

/// `serde_json::Value::String`: the value that is the string `s`.
#[verifier::external_body]
pub(crate) fn text_value(s: String) -> (v: serde_json::Value)
    ensures
        value_view(v) == Json::Text(s@),
{
    serde_json::Value::String(s)
}

/// `serde_json::Value::to_string`: the compact text of the value.
#[verifier::external_body]
pub(crate) fn value_text(v: &serde_json::Value) -> (s: String)
    ensures
        s@ == json_text(value_view(*v)),
{
    v.to_string()
}

/// `serde_json::from_str`, reading any JSON value. An object of strings whose
/// keys ascend is read back from the compact text that it is written as, unless
/// its first key is the one that marks a raw value.
#[verifier::external_body]
pub(crate) fn parse_json(text: &str) -> (r: Option<serde_json::Value>)
    ensures
        match r {
            Some(v) => parsed_json(text@) == Some(value_view(v)),
            None => parsed_json(text@) is None,
        },
        reads_back(text@, r),
{
    serde_json::from_str(text).ok()
}

/// `serde_json::Value::as_object` and the walk over its entries: the keys and
/// values of an object in the order of its keys, nothing for another value.
#[verifier::external_body]
pub(crate) fn object_entries(v: &serde_json::Value) -> (r: Option<
    Vec<(String, serde_json::Value)>,
>)
    ensures
        match r {
            Some(entries) => value_view(*v) matches Json::Object(view) && entries@.map_values(
                |e: (String, serde_json::Value)| (e.0@, value_view(e.1)),
            ) == view && keys_ascend(view),
            None => !(value_view(*v) is Object),
        },
{
    v.as_object().map(|m| m.iter().map(|(k, x)| (k.clone(), x.clone())).collect())
}

/// `serde_json::Value::as_str`: the string that the value is, nothing for
/// another value.
#[verifier::external_body]
pub(crate) fn as_text(v: &serde_json::Value) -> (r: Option<String>)
    ensures
        match r {
            Some(s) => value_view(*v) == Json::Text(s@),
            None => !(value_view(*v) is Text),
        },
{
    v.as_str().map(|s| s.to_string())
}

} // verus!
