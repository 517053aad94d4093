//! TOML documents as trees, read and written by the toml crate.

use crate::text::{text_lt, views};
use vstd::prelude::*;

verus! {

/// A value of the toml crate.
#[verifier::external_type_specification]
#[verifier::external_body]
pub struct ExValue(toml::Value);

/// What stands at one place of a document.
pub enum TomlNode {
    /// A table; what it holds stands below.
    Table,
    /// A string.
    Text(Seq<char>),
    /// Anything else, as the crate displays it.
    Other(Seq<char>),
}

/// A document: what stands at each place. A place is the sequence of keys that
/// lead to it, and nothing leads to the document itself.
pub type TomlMap = Map<Seq<Seq<char>>, TomlNode>;

/// What a value holds.
pub uninterp spec fn toml_content(v: toml::Value) -> Map<Seq<Seq<char>>, TomlNode>;

/// What `toml::from_str` makes of a text: the document, or the text of the error.
pub uninterp spec fn toml_parsed(text: Seq<char>) -> std::result::Result<
    Map<Seq<Seq<char>>, TomlNode>,
    Seq<char>,
>;

/// What `toml::to_string` makes of a document: the text, or the text of the error.
pub uninterp spec fn toml_written(content: Map<Seq<Seq<char>>, TomlNode>) -> std::result::Result<
    Seq<char>,
    Seq<char>,
>;

/// True of a document that is a table.
pub open spec fn is_table(m: TomlMap) -> bool {
    m.dom().contains(seq![]) && m[seq![]] is Table
}

/// True of a document that holds something under the key.
pub open spec fn has_key(m: TomlMap, key: Seq<char>) -> bool {
    m.dom().contains(seq![key])
}

/// What stands below the key.
pub open spec fn branch(m: TomlMap, key: Seq<char>) -> TomlMap {
    Map::new(
        |p: Seq<Seq<char>>| m.dom().contains(seq![key] + p),
        |p: Seq<Seq<char>>| m[seq![key] + p],
    )
}

/// The document without the key and what stands below it.
pub open spec fn without(m: TomlMap, key: Seq<char>) -> TomlMap {
    Map::new(
        |p: Seq<Seq<char>>| m.dom().contains(p) && !(p.len() > 0 && p[0] == key),
        |p: Seq<Seq<char>>| m[p],
    )
}

/// The document with `sub` below the key, in place of what stood there.
pub open spec fn with_branch(m: TomlMap, key: Seq<char>, sub: TomlMap) -> TomlMap {
    Map::new(
        |p: Seq<Seq<char>>|
            if p.len() > 0 && p[0] == key {
                sub.dom().contains(p.skip(1))
            } else {
                m.dom().contains(p)
            },
        |p: Seq<Seq<char>>|
            if p.len() > 0 && p[0] == key {
                sub[p.skip(1)]
            } else {
                m[p]
            },
    )
}

/// A table with nothing in it.
pub open spec fn empty_table() -> TomlMap {
    Map::empty().insert(seq![], TomlNode::Table)
}

/// True of a document in which only tables have something below them.
pub open spec fn well_nested(m: TomlMap) -> bool {
    forall|p: Seq<Seq<char>>, k: Seq<char>| #[trigger]
        m.dom().contains(p.push(k)) ==> m.dom().contains(p) && m[p] is Table
}

/// The string that a document is, if it is one.
pub open spec fn text_at_root(m: TomlMap) -> Option<Seq<char>> {
    match m[seq![]] {
        TomlNode::Text(t) => Some(t),
        _ => None,
    }
}

/// `toml::from_str` into a `toml::Value`: a document, or the text of the error. Which
/// one is a function of the text, named `toml_parsed`. Only tables of a document have
/// something below them. That the document itself is a table is not said: the crate
/// reads one whose first key is its private name for dates as a date.
#[verifier::external_body]
pub(crate) fn toml_parse(text: &str) -> (r: std::result::Result<toml::Value, String>)
    ensures
        match r {
            Ok(v) => toml_parsed(text@) == Ok::<TomlMap, Seq<char>>(toml_content(v))
                && well_nested(toml_content(v)),
            Err(e) => toml_parsed(text@) == Err::<TomlMap, Seq<char>>(e@),
        },
{
    toml::from_str::<toml::Value>(text).map_err(|e| e.to_string())
}

/// `toml::to_string` of a `toml::Value`: its text, or the text of the error. Which
/// one is a function of what the value holds, named `toml_written`.
#[verifier::external_body]
pub(crate) fn toml_write(v: &toml::Value) -> (r: std::result::Result<String, String>)
    ensures
        match r {
            Ok(t) => toml_written(toml_content(*v)) == Ok::<Seq<char>, Seq<char>>(t@),
            Err(e) => toml_written(toml_content(*v)) == Err::<Seq<char>, Seq<char>>(e@),
        },
{
    toml::to_string(v).map_err(|e| e.to_string())
}

/// `toml::Value::get` with a string: a copy of what stands below the key, if
/// anything does.
#[verifier::external_body]
pub(crate) fn toml_get(v: &toml::Value, key: &str) -> (r: Option<toml::Value>)
    ensures
        match r {
            Some(u) => has_key(toml_content(*v), key@) && toml_content(u) == branch(
                toml_content(*v),
                key@,
            ),
            None => !has_key(toml_content(*v), key@),
        },
{
    v.get(key).cloned()
}

/// `toml::Value::as_str`: the string that the value is, if it is one.
#[verifier::external_body]
pub(crate) fn toml_text(v: &toml::Value) -> (r: Option<String>)
    ensures
        match r {
            Some(t) => text_at_root(toml_content(*v)) == Some(t@),
            None => text_at_root(toml_content(*v)) is None,
        },
{
    v.as_str().map(|s| s.to_string())
}

/// `toml::Value::as_table` and the keys of the table, which come sorted: `None` if
/// the value is no table, and then nothing stands below it.
#[verifier::external_body]
pub(crate) fn toml_keys(v: &toml::Value) -> (r: Option<Vec<String>>)
    ensures
        match r {
            Some(keys) => {
                &&& is_table(toml_content(*v))
                &&& forall|k: Seq<char>| #[trigger]
                    views(keys@).contains(k) <==> has_key(toml_content(*v), k)
                &&& forall|i: int, j: int|
                    0 <= i < j < keys@.len() ==> text_lt(
                        (#[trigger] keys@[i])@,
                        (#[trigger] keys@[j])@,
                    )
            },
            None => !is_table(toml_content(*v)) && forall|k: Seq<char>|
                !(#[trigger] has_key(toml_content(*v), k)),
        },
{
    v.as_table().map(|t| t.keys().cloned().collect())
}

/// `toml::map::Map::remove` on the table that the value is.
#[verifier::external_body]
pub(crate) fn toml_remove(v: &mut toml::Value, key: &str)
    requires
        is_table(toml_content(*old(v))),
    ensures
        toml_content(*final(v)) == without(toml_content(*old(v)), key@),
{
    v.as_table_mut().map(|t| t.remove(key));
}

/// `toml::map::Map::insert` on the table that the value is.
#[verifier::external_body]
pub(crate) fn toml_insert(v: &mut toml::Value, key: &str, sub: toml::Value)
    requires
        is_table(toml_content(*old(v))),
    ensures
        toml_content(*final(v)) == with_branch(toml_content(*old(v)), key@, toml_content(sub)),
{
    v.as_table_mut().map(|t| t.insert(key.to_string(), sub));
}

/// A `toml::Value` that is a table with nothing in it.
#[verifier::external_body]
pub(crate) fn toml_empty() -> (r: toml::Value)
    ensures
        toml_content(r) == empty_table(),
{
    toml::Value::Table(toml::value::Table::new())
}

// ---- how the operations go together -----------------------------------------

/// What was put below a key stands there; what stands elsewhere is as it was.
pub proof fn branch_of_with_branch(m: TomlMap, key: Seq<char>, sub: TomlMap, other: Seq<char>)
    ensures
        branch(with_branch(m, key, sub), key) == sub,
        other != key ==> branch(with_branch(m, key, sub), other) == branch(m, other),
        other != key ==> has_key(with_branch(m, key, sub), other) == has_key(m, other),
        has_key(with_branch(m, key, sub), key) == sub.dom().contains(seq![]),
        is_table(with_branch(m, key, sub)) == is_table(m),
{
    let w = with_branch(m, key, sub);
    assert forall|p: Seq<Seq<char>>| #[trigger] branch(w, key).dom().contains(p)
        == sub.dom().contains(p) && (sub.dom().contains(p) ==> branch(w, key)[p] == sub[p]) by {
        assert((seq![key] + p).skip(1) =~= p);
    }
    assert(branch(w, key) =~= sub);
    if other != key {
        assert(branch(w, other) =~= branch(m, other));
    }
    assert(seq![key].skip(1) =~= seq![]);
}

/// What was removed is gone; what stands elsewhere is as it was.
pub proof fn branch_of_without(m: TomlMap, key: Seq<char>, other: Seq<char>)
    ensures
        !has_key(without(m, key), key),
        other != key ==> branch(without(m, key), other) == branch(m, other),
        other != key ==> has_key(without(m, key), other) == has_key(m, other),
        is_table(without(m, key)) == is_table(m),
{
    if other != key {
        assert(branch(without(m, key), other) =~= branch(m, other));
    }
}

} // verus!
