//! Reading and editing TOML text through `toml_edit`, which keeps comments and
//! layout. Every operation takes the text, parses it as a document, reads or makes
//! one change, and gives the document back as text. What `toml_edit` makes of a
//! text is not restated: each outcome is named below and depends on its arguments
//! alone. Where the text does not parse, every read finds nothing and every edit
//! gives `None`.
use vstd::prelude::*;
use toml_edit::{DocumentMut, Item, Table, value};

verus! {

pub open spec fn opt_text(s: Option<String>) -> Option<Seq<char>> {
    match s {
        Some(t) => Some(t@),
        None => None,
    }
}

/// Whether the text parses as a TOML document.
pub uninterp spec fn parses_toml(text: Seq<char>) -> bool;

/// `str::parse::<toml_edit::DocumentMut>` succeeds.
#[verifier::external_body]
pub(crate) fn toml_parses(text: &str) -> (r: bool)
    ensures
        r == parses_toml(text@),
{
    text.parse::<DocumentMut>().is_ok()
}

/// The string at a top-level key.
pub uninterp spec fn toml_str(text: Seq<char>, key: Seq<char>) -> Option<Seq<char>>;

/// `doc.get(key)` read with `Item::as_str`: `None` for an absent key or one that
/// holds no string.
#[verifier::external_body]
pub(crate) fn toml_str_at(text: &str, key: &str) -> (r: Option<String>)
    ensures
        opt_text(r) == toml_str(text@, key@),
        !parses_toml(text@) ==> r is None,
{
    let doc = text.parse::<DocumentMut>().ok()?;
    doc.get(key).and_then(Item::as_str).map(str::to_string)
}

/// The string at `key` of the entry `entry` of the top-level table `table`.
pub uninterp spec fn toml_nested_str(text: Seq<char>, table: Seq<char>, entry: Seq<char>, key: Seq<char>) -> Option<Seq<char>>;

/// `doc.get(table)`, then `Item::get(entry)`, `Item::get(key)` and `Item::as_str`.
#[verifier::external_body]
pub(crate) fn toml_nested_str_at(text: &str, table: &str, entry: &str, key: &str) -> (r: Option<String>)
    ensures
        opt_text(r) == toml_nested_str(text@, table@, entry@, key@),
        !parses_toml(text@) ==> r is None,
{
    let doc = text.parse::<DocumentMut>().ok()?;
    doc.get(table).and_then(|t| t.get(entry)).and_then(|e| e.get(key)).and_then(Item::as_str).map(
        str::to_string,
    )
}

/// The TOML text of the entry `entry` of the top-level table `table`.
pub uninterp spec fn toml_entry(text: Seq<char>, table: Seq<char>, entry: Seq<char>) -> Option<Seq<char>>;

/// `doc.get(table)`, then `Item::get(entry)`, written back with `to_string`.
#[verifier::external_body]
pub(crate) fn toml_entry_text(text: &str, table: &str, entry: &str) -> (r: Option<String>)
    ensures
        opt_text(r) == toml_entry(text@, table@, entry@),
        !parses_toml(text@) ==> r is None,
{
    let doc = text.parse::<DocumentMut>().ok()?;
    doc.get(table).and_then(|t| t.get(entry)).map(|e| e.to_string())
}

/// Whether the document has a top-level key.
pub uninterp spec fn toml_has(text: Seq<char>, key: Seq<char>) -> bool;

/// `DocumentMut::contains_key`; `false` for a text that does not parse.
#[verifier::external_body]
pub(crate) fn toml_has_key(text: &str, key: &str) -> (r: bool)
    ensures
        r == toml_has(text@, key@),
        !parses_toml(text@) ==> !r,
{
    text.parse::<DocumentMut>().is_ok_and(|doc| doc.contains_key(key))
}

/// Whether a top-level key holds a table (not an inline one).
pub uninterp spec fn toml_table(text: Seq<char>, key: Seq<char>) -> bool;

/// `doc.get(key)` read with `Item::is_table`; `false` for an absent key.
#[verifier::external_body]
pub(crate) fn toml_is_table(text: &str, key: &str) -> (r: bool)
    ensures
        r == toml_table(text@, key@),
        !parses_toml(text@) ==> !r,
{
    text.parse::<DocumentMut>().is_ok_and(|doc| doc.get(key).is_some_and(Item::is_table))
}

/// The number of entries of the table at a top-level key.
pub uninterp spec fn toml_table_size(text: Seq<char>, key: Seq<char>) -> Option<nat>;

/// `doc.get(key)` read with `Item::as_table` and `Table::len`.
#[verifier::external_body]
pub(crate) fn toml_table_len(text: &str, key: &str) -> (r: Option<usize>)
    ensures
        match r {
            Some(n) => toml_table_size(text@, key@) == Some(n as nat),
            None => toml_table_size(text@, key@) is None,
        },
        !parses_toml(text@) ==> r is None,
{
    let doc = text.parse::<DocumentMut>().ok()?;
    doc.get(key).and_then(Item::as_table).map(Table::len)
}

/// The document with a top-level key set to a string.
pub uninterp spec fn toml_set_str(text: Seq<char>, key: Seq<char>, v: Seq<char>) -> Option<Seq<char>>;

/// `doc[key] = toml_edit::value(v)`, written back with `to_string`.
#[verifier::external_body]
pub(crate) fn toml_with_str(text: &str, key: &str, v: &str) -> (r: Option<String>)
    ensures
        opt_text(r) == toml_set_str(text@, key@, v@),
        r is None <==> !parses_toml(text@),
{
    let mut doc = text.parse::<DocumentMut>().ok()?;
    doc[key] = value(v);
    Some(doc.to_string())
}

/// The document with a top-level key set to a copy of the same key's item in
/// another document.
pub uninterp spec fn toml_copy_item(text: Seq<char>, source: Seq<char>, key: Seq<char>) -> Option<Seq<char>>;

/// `doc[key] = source.get(key).clone()`, written back with `to_string`; `None`
/// where either text does not parse or `source` lacks the key.
#[verifier::external_body]
pub(crate) fn toml_with_item_of(text: &str, source: &str, key: &str) -> (r: Option<String>)
    ensures
        opt_text(r) == toml_copy_item(text@, source@, key@),
        !parses_toml(text@) ==> r is None,
{
    let mut doc = text.parse::<DocumentMut>().ok()?;
    let from = source.parse::<DocumentMut>().ok()?;
    doc[key] = from.get(key)?.clone();
    Some(doc.to_string())
}

/// The document without a top-level key.
pub uninterp spec fn toml_remove(text: Seq<char>, key: Seq<char>) -> Option<Seq<char>>;

/// `Table::remove(key)` on the document, written back with `to_string`.
#[verifier::external_body]
pub(crate) fn toml_without_key(text: &str, key: &str) -> (r: Option<String>)
    ensures
        opt_text(r) == toml_remove(text@, key@),
        r is None <==> !parses_toml(text@),
{
    let mut doc = text.parse::<DocumentMut>().ok()?;
    doc.remove(key);
    Some(doc.to_string())
}

/// The document with a top-level key set to a new, empty table.
pub uninterp spec fn toml_set_table(text: Seq<char>, key: Seq<char>) -> Option<Seq<char>>;

/// `doc[key] = Item::Table(Table::new())`, written back with `to_string`.
#[verifier::external_body]
pub(crate) fn toml_with_table(text: &str, key: &str) -> (r: Option<String>)
    ensures
        opt_text(r) == toml_set_table(text@, key@),
        r is None <==> !parses_toml(text@),
{
    let mut doc = text.parse::<DocumentMut>().ok()?;
    doc[key] = Item::Table(Table::new());
    Some(doc.to_string())
}

/// The document with a new, empty table as the entry `entry` of the top-level
/// table `table`.
pub uninterp spec fn toml_set_nested_table(text: Seq<char>, table: Seq<char>, entry: Seq<char>) -> Option<Seq<char>>;

/// `Item::as_table_like_mut` on `doc.get_mut(table)`, then
/// `insert(entry, Item::Table(Table::new()))`, written back with `to_string`;
/// `None` where `table` holds no table.
#[verifier::external_body]
pub(crate) fn toml_with_nested_table(text: &str, table: &str, entry: &str) -> (r: Option<String>)
    ensures
        opt_text(r) == toml_set_nested_table(text@, table@, entry@),
        !parses_toml(text@) ==> r is None,
{
    let mut doc = text.parse::<DocumentMut>().ok()?;
    doc.get_mut(table)?.as_table_like_mut()?.insert(entry, Item::Table(Table::new()));
    Some(doc.to_string())
}

/// The document with `key` of the entry `entry` of the top-level table `table`
/// set to a string.
pub uninterp spec fn toml_set_nested_str(text: Seq<char>, table: Seq<char>, entry: Seq<char>, key: Seq<char>, v: Seq<char>) -> Option<Seq<char>>;

/// `insert(key, toml_edit::value(v))` on the table-like entry `entry` of the
/// table-like `table`, written back with `to_string`.
#[verifier::external_body]
pub(crate) fn toml_with_nested_str(text: &str, table: &str, entry: &str, key: &str, v: &str) -> (r: Option<String>)
    ensures
        opt_text(r) == toml_set_nested_str(text@, table@, entry@, key@, v@),
        !parses_toml(text@) ==> r is None,
{
    let mut doc = text.parse::<DocumentMut>().ok()?;
    let t = doc.get_mut(table)?.as_table_like_mut()?;
    t.get_mut(entry)?.as_table_like_mut()?.insert(key, value(v));
    Some(doc.to_string())
}

/// The same, with a boolean.
pub uninterp spec fn toml_set_nested_bool(text: Seq<char>, table: Seq<char>, entry: Seq<char>, key: Seq<char>, v: bool) -> Option<Seq<char>>;

/// `insert(key, toml_edit::value(v))` with a boolean `v`.
#[verifier::external_body]
pub(crate) fn toml_with_nested_bool(text: &str, table: &str, entry: &str, key: &str, v: bool) -> (r: Option<String>)
    ensures
        opt_text(r) == toml_set_nested_bool(text@, table@, entry@, key@, v),
        !parses_toml(text@) ==> r is None,
{
    let mut doc = text.parse::<DocumentMut>().ok()?;
    let t = doc.get_mut(table)?.as_table_like_mut()?;
    t.get_mut(entry)?.as_table_like_mut()?.insert(key, value(v));
    Some(doc.to_string())
}

/// The document without the entry `entry` of the top-level table `table`.
pub uninterp spec fn toml_remove_nested(text: Seq<char>, table: Seq<char>, entry: Seq<char>) -> Option<Seq<char>>;

/// `Table::remove(entry)` on `doc.get_mut(table)` read with `Item::as_table_mut`,
/// written back with `to_string`; `None` where `table` holds no table.
#[verifier::external_body]
pub(crate) fn toml_without_nested(text: &str, table: &str, entry: &str) -> (r: Option<String>)
    ensures
        opt_text(r) == toml_remove_nested(text@, table@, entry@),
        !parses_toml(text@) ==> r is None,
{
    let mut doc = text.parse::<DocumentMut>().ok()?;
    doc.get_mut(table)?.as_table_mut()?.remove(entry);
    Some(doc.to_string())
}

} // verus!
