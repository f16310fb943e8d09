//! TOML tables, as far as this library reads and writes them: string values
//! under string keys.
use vstd::prelude::*;

verus! {

#[verifier::external_type_specification]
#[verifier::external_body]
#[verifier::reject_recursive_types(K)]
#[verifier::reject_recursive_types(V)]
pub struct ExTomlMap<K, V>(toml::map::Map<K, V>);

#[verifier::external_type_specification]
#[verifier::external_body]
pub struct ExTomlValue(toml::Value);

/// What a TOML table holds: each of its keys, with the text of the value
/// where that value is a string, and `None` where it is of another kind.
pub uninterp spec fn table_entries(t: toml::Table) -> Map<Seq<char>, Option<Seq<char>>>;

/// The TOML text that the serializer writes for a table of string values.
pub uninterp spec fn toml_text(entries: Map<Seq<char>, Option<Seq<char>>>) -> Seq<char>;

/// The table that a TOML document parses to, or `None` where the text is
/// not a TOML document.
pub uninterp spec fn toml_parse(text: Seq<char>) -> Option<Map<Seq<char>, Option<Seq<char>>>>;

pub open spec fn all_strings(m: Map<Seq<char>, Option<Seq<char>>>) -> bool {
    forall|k: Seq<char>| #[trigger] m.contains_key(k) ==> m[k] is Some
}

/// Relies on `toml::map::Map::new`: a table with no entries.
#[verifier::external_body]
pub(crate) fn new_table() -> (r: toml::Table)
    ensures
        table_entries(r).dom().is_empty(),
{
    toml::Table::new()
}

/// Relies on `toml::map::Map::insert`: the key now holds the string value,
/// whatever it held before.
#[verifier::external_body]
pub(crate) fn insert_string(t: &mut toml::Table, key: String, value: String)
    ensures
        table_entries(*final(t)) == table_entries(*old(t)).insert(key@, Some(value@)),
{
    t.insert(key, toml::Value::String(value));
}

/// Relies on `toml::map::Map::get` and `toml::Value::as_str`: the string
/// stored under `key`, if the key is there and its value is a string.
#[verifier::external_body]
pub(crate) fn lookup_string(t: &toml::Table, key: &str) -> (r: Option<String>)
    ensures
        match r {
            Some(v) => table_entries(*t).contains_key(key@) && table_entries(*t)[key@] == Some(
                v@,
            ),
            None => !table_entries(*t).contains_key(key@) || table_entries(*t)[key@] is None,
        },
{
    t.get(key).and_then(toml::Value::as_str).map(String::from)
}

/// Relies on `toml::from_str` into a `toml::Table`: parses a TOML document.
#[verifier::external_body]
pub(crate) fn parse_table(text: &str) -> (r: Option<toml::Table>)
    ensures
        match r {
            Some(t) => toml_parse(text@) == Some(table_entries(t)),
            None => toml_parse(text@) is None,
        },
{
    toml::from_str::<toml::Table>(text).ok()
}

/// Relies on `toml::to_string` on a `toml::Table`: the TOML text of a table
/// whose values are all strings. The serializer fails only on keys that are
/// not strings and on values it cannot represent, which such a table lacks.
#[verifier::external_body]
pub(crate) fn render_table(t: &toml::Table) -> (r: Option<String>)
    requires
        all_strings(table_entries(*t)),
    ensures
        r is Some,
        r matches Some(s) ==> s@ == toml_text(table_entries(*t)),
{
    toml::to_string(t).ok()
}

} // verus!
