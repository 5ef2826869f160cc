//! The part of a TOML document the library reads: each top-level key with
//! its value, and for a table its keys with booleans, strings, lists of
//! strings, and other values.

use vstd::prelude::*;

use crate::text::texts;
use toml::{Table, Value};

verus! {

/// A value inside a table.
pub enum TomlItem {
    Bool(bool),
    Text(String),
    /// An array: its string items, `None` for items of another kind.
    List(Vec<Option<String>>),
    Other,
}

pub enum ItemView {
    Bool(bool),
    Text(Seq<char>),
    List(Seq<Option<Seq<char>>>),
    Other,
}

pub open spec fn opt_texts(items: Seq<Option<String>>) -> Seq<Option<Seq<char>>> {
    items.map_values(|o: Option<String>| match o {
        Some(s) => Some(s@),
        None => None,
    })
}

impl View for TomlItem {
    type V = ItemView;

    open spec fn view(&self) -> ItemView {
        match self {
            TomlItem::Bool(b) => ItemView::Bool(*b),
            TomlItem::Text(t) => ItemView::Text(t@),
            TomlItem::List(items) => ItemView::List(opt_texts(items@)),
            TomlItem::Other => ItemView::Other,
        }
    }
}

/// A top-level value: a table with its entries, or a single item.
pub enum TomlValue {
    Table(Vec<(String, TomlItem)>),
    Item(TomlItem),
}

pub enum ValueView {
    Table(Seq<(Seq<char>, ItemView)>),
    Item(ItemView),
}

pub open spec fn table_view(t: Seq<(String, TomlItem)>) -> Seq<(Seq<char>, ItemView)> {
    t.map_values(|e: (String, TomlItem)| (e.0@, e.1@))
}

impl View for TomlValue {
    type V = ValueView;

    open spec fn view(&self) -> ValueView {
        match self {
            TomlValue::Table(t) => ValueView::Table(table_view(t@)),
            TomlValue::Item(i) => ValueView::Item(i@),
        }
    }
}

/// A top-level entry: its key and its value.
pub type TomlEntry = (String, TomlValue);

pub type EntryView = (Seq<char>, ValueView);

pub open spec fn doc_view(d: Seq<TomlEntry>) -> Seq<EntryView> {
    d.map_values(|e: TomlEntry| (e.0@, e.1@))
}

/// The document `toml` reads from `text`, or the text of its error when
/// `text` is not valid TOML.
pub uninterp spec fn toml_document(text: Seq<char>) -> Result<Seq<EntryView>, Seq<char>>;

/// `toml::from_str::<toml::Table>`: the top-level keys (tables with their
/// entries), or the parse error's text. The outcome depends on the text
/// alone.
#[verifier::external_body]
pub(crate) fn parse_toml(text: &str) -> (r: Result<Vec<TomlEntry>, String>)
    ensures
        match toml_document(text@) {
            Ok(d) => r matches Ok(x) && doc_view(x@) == d,
            Err(e) => r matches Err(m) && m@ == e,
        },
{
    let item = |v: Value| match v {
        Value::Boolean(b) => TomlItem::Bool(b),
        Value::String(s) => TomlItem::Text(s),
        Value::Array(a) => TomlItem::List(a.into_iter().map(|x| x.try_into().ok()).collect()),
        _ => TomlItem::Other,
    };
    let table: Table = toml::from_str(text).map_err(|error| error.to_string())?;
    Ok(table.into_iter().map(|(key, value)| (key, match value {
        Value::Table(t) => TomlValue::Table(t.into_iter().map(|(k, v)| (k, item(v))).collect()),
        other => TomlValue::Item(item(other)),
    })).collect())
}

/// The value of the first entry named `key`.
pub open spec fn entry_of(doc: Seq<EntryView>, key: Seq<char>) -> Option<ValueView>
    decreases doc.len(),
{
    if doc.len() == 0 {
        None
    } else if doc[0].0 == key {
        Some(doc[0].1)
    } else {
        entry_of(doc.drop_first(), key)
    }
}

/// The item named `key` in a table.
pub open spec fn item_of(table: Seq<(Seq<char>, ItemView)>, key: Seq<char>) -> Option<ItemView>
    decreases table.len(),
{
    if table.len() == 0 {
        None
    } else if table[0].0 == key {
        Some(table[0].1)
    } else {
        item_of(table.drop_first(), key)
    }
}

/// `doc[table][key]`, when `table` is a table holding `key`.
pub open spec fn lookup_item(doc: Seq<EntryView>, table: Seq<char>, key: Seq<char>) -> Option<ItemView> {
    match entry_of(doc, table) {
        Some(ValueView::Table(t)) => item_of(t, key),
        _ => None,
    }
}

/// Finds the top-level entry `key`.
pub fn find_entry(doc: &Vec<TomlEntry>, key: &str) -> (r: Option<usize>)
    ensures
        match entry_of(doc_view(doc@), key@) {
            Some(v) => r matches Some(i) && i < doc@.len() && doc_view(doc@)[i as int].1 == v,
            None => r is None,
        },
{
    let ghost dv = doc_view(doc@);
    let mut i: usize = 0;
    assert(dv.skip(0) =~= dv);
    while i < doc.len()
        invariant
            i <= doc@.len(),
            dv == doc_view(doc@),
            entry_of(dv, key@) == entry_of(dv.skip(i as int), key@),
        decreases doc@.len() - i,
    {
        assert(dv.skip(i as int).drop_first() =~= dv.skip(i + 1));
        assert(dv.skip(i as int)[0] == dv[i as int]);
        if crate::agent::events::text_eq(doc[i].0.as_str(), key) {
            return Some(i);
        }
        i = i + 1;
    }
    None
}

/// Finds the item `key` of a table.
pub fn find_item(table: &Vec<(String, TomlItem)>, key: &str) -> (r: Option<usize>)
    ensures
        match item_of(table_view(table@), key@) {
            Some(v) => r matches Some(i) && i < table@.len() && table@[i as int].1@ == v,
            None => r is None,
        },
{
    let ghost tv = table_view(table@);
    let mut i: usize = 0;
    assert(tv.skip(0) =~= tv);
    while i < table.len()
        invariant
            i <= table@.len(),
            tv == table_view(table@),
            item_of(tv, key@) == item_of(tv.skip(i as int), key@),
        decreases table@.len() - i,
    {
        assert(tv.skip(i as int).drop_first() =~= tv.skip(i + 1));
        assert(tv.skip(i as int)[0] == tv[i as int]);
        if crate::agent::events::text_eq(table[i].0.as_str(), key) {
            return Some(i);
        }
        i = i + 1;
    }
    None
}

/// `doc[table][key]`.
pub fn get_item<'a>(doc: &'a Vec<TomlEntry>, table: &str, key: &str) -> (r: Option<&'a TomlItem>)
    ensures
        match lookup_item(doc_view(doc@), table@, key@) {
            Some(v) => r matches Some(item) && item@ == v,
            None => r is None,
        },
{
    match find_entry(doc, table) {
        Some(i) => match &doc[i].1 {
            TomlValue::Table(t) => match find_item(t, key) {
                Some(k) => Some(&t[k].1),
                None => None,
            },
            TomlValue::Item(_) => None,
        },
        None => None,
    }
}

} // verus!
