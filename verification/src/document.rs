//! TOML and JSON documents as plain trees.
//!
//! The `toml` and `serde_json` crates read the text; everything the library
//! decides from a document, it decides from the tree.

use vstd::prelude::*;

use crate::text;

verus! {

/// A document value. Numbers, dates, booleans and nulls play no part in what
/// PyPilot reads.
#[derive(Debug)]
pub enum Tree {
    Text(String),
    List(Vec<Tree>),
    /// The entries, in the order the reading crate hands them out.
    Table(Vec<(String, Tree)>),
    Other,
}

/// What a document value holds.
#[verifier::ext_equal]
pub enum TreeView {
    Text(Seq<char>),
    List(Seq<TreeView>),
    Table(Seq<(Seq<char>, TreeView)>),
    Other,
}

/// What a tree holds, all the way down.
pub open spec fn contents(t: Tree) -> TreeView
    decreases t,
{
    match t {
        Tree::Text(s) => TreeView::Text(s@),
        Tree::List(items) => TreeView::List(
            Seq::new(
                items@.len(),
                |i: int|
                    if 0 <= i < items@.len() {
                        contents(items@[i])
                    } else {
                        TreeView::Other
                    },
            ),
        ),
        Tree::Table(entries) => TreeView::Table(
            Seq::new(
                entries@.len(),
                |i: int|
                    if 0 <= i < entries@.len() {
                        (entries@[i].0@, contents(entries@[i].1))
                    } else {
                        (seq![], TreeView::Other)
                    },
            ),
        ),
        Tree::Other => TreeView::Other,
    }
}

impl View for Tree {
    type V = TreeView;

    open spec fn view(&self) -> TreeView {
        contents(*self)
    }
}

/// What the items of a list hold.
pub open spec fn item_views(items: Seq<Tree>) -> Seq<TreeView> {
    Seq::new(items.len(), |i: int| items[i]@)
}

/// What the entries of a table hold.
pub open spec fn table_views(entries: Seq<(String, Tree)>) -> Seq<(Seq<char>, TreeView)> {
    Seq::new(entries.len(), |i: int| (entries[i].0@, entries[i].1@))
}

pub proof fn lemma_list_view(items: Vec<Tree>)
    ensures
        Tree::List(items)@ == TreeView::List(item_views(items@)),
{
    match Tree::List(items)@ {
        TreeView::List(views) => {
            assert(views =~= item_views(items@));
        },
        _ => {},
    }
}

pub proof fn lemma_table_view(entries: Vec<(String, Tree)>)
    ensures
        Tree::Table(entries)@ == TreeView::Table(table_views(entries@)),
{
    match Tree::Table(entries)@ {
        TreeView::Table(views) => {
            assert(views =~= table_views(entries@));
        },
        _ => {},
    }
}

/// The `toml` crate's own value, opaque here.
#[verifier::external_type_specification]
#[verifier::external_body]
pub struct ExTomlValue(toml::Value);

/// The tree of a value of the `toml` crate.
pub uninterp spec fn toml_contents(v: toml::Value) -> TreeView;

/// The document a text holds, `None` where it is not TOML.
pub uninterp spec fn toml_document(s: Seq<char>) -> Option<TreeView>;

/// Calls `toml::from_str` for a `toml::Value`: `None` where the crate reports an
/// error, else the value it read. The same text always reads the same.
#[verifier::external_body]
fn read_toml_value(s: &str) -> (r: Option<toml::Value>)
    ensures
        match r {
            Some(v) => toml_document(s@) == Some(toml_contents(v)),
            None => toml_document(s@) is None,
        },
{
    toml::from_str::<toml::Value>(s).ok()
}

/// Turns a `toml::Value` into a tree: strings, arrays and tables one for one, in
/// the crate's own order of iteration; the other kinds become [`Tree::Other`].
#[verifier::external_body]
fn toml_tree(v: toml::Value) -> (r: Tree)
    ensures
        r@ == toml_contents(v),
{
    match v {
        toml::Value::String(s) => Tree::Text(s),
        toml::Value::Integer(_) => Tree::Other,
        toml::Value::Boolean(_) => Tree::Other,
        toml::Value::Array(items) => Tree::List(items.into_iter().map(toml_tree).collect()),
        toml::Value::Table(t) => {
            Tree::Table(t.into_iter().map(|(key, value)| (key, toml_tree(value))).collect())
        },
        toml::Value::Float(_) => Tree::Other,
        toml::Value::Datetime(_) => Tree::Other,
    }
}

/// What an optional tree holds.
pub open spec fn tree_of(t: Option<Tree>) -> Option<TreeView> {
    match t {
        Some(t) => Some(t@),
        None => None,
    }
}

/// Read a TOML document. `None` when the text is not TOML.
pub fn read_toml(s: &str) -> (r: Option<Tree>)
    ensures
        tree_of(r) == toml_document(s@),
{
    match read_toml_value(s) {
        Some(v) => Some(toml_tree(v)),
        None => None,
    }
}

/// The `serde_json` crate's own value, opaque here.
#[verifier::external_type_specification]
#[verifier::external_body]
pub struct ExJsonValue(serde_json::Value);

/// The tree of a value of the `serde_json` crate.
pub uninterp spec fn json_contents(v: serde_json::Value) -> TreeView;

/// The document a text holds, `None` where it is not JSON.
pub uninterp spec fn json_document(s: Seq<char>) -> Option<TreeView>;

/// Calls `serde_json::from_str` for a `serde_json::Value`: `None` where the crate
/// reports an error, else the value it read. The same text always reads the same.
#[verifier::external_body]
fn read_json_value(s: &str) -> (r: Option<serde_json::Value>)
    ensures
        match r {
            Some(v) => json_document(s@) == Some(json_contents(v)),
            None => json_document(s@) is None,
        },
{
    serde_json::from_str::<serde_json::Value>(s).ok()
}

/// Turns a `serde_json::Value` into a tree: strings, arrays and objects one for
/// one, in the crate's own order of iteration; the other kinds become
/// [`Tree::Other`].
#[verifier::external_body]
fn json_tree(v: serde_json::Value) -> (r: Tree)
    ensures
        r@ == json_contents(v),
{
    match v {
        serde_json::Value::String(s) => Tree::Text(s),
        serde_json::Value::Array(items) => Tree::List(items.into_iter().map(json_tree).collect()),
        serde_json::Value::Object(t) => {
            Tree::Table(t.into_iter().map(|(key, value)| (key, json_tree(value))).collect())
        },
        serde_json::Value::Null => Tree::Other,
        serde_json::Value::Bool(_) => Tree::Other,
        serde_json::Value::Number(_) => Tree::Other,
    }
}

/// Read a JSON document. `None` when the text is not JSON.
pub fn read_json(s: &str) -> (r: Option<Tree>)
    ensures
        tree_of(r) == json_document(s@),
{
    match read_json_value(s) {
        Some(v) => Some(json_tree(v)),
        None => None,
    }
}

/// The index of the entry with the given key, or the length.
pub open spec fn entry_index(entries: Seq<(Seq<char>, TreeView)>, key: Seq<char>) -> int
    decreases entries.len(),
{
    if entries.len() == 0 || entries[0].0 == key {
        0
    } else {
        1 + entry_index(entries.drop_first(), key)
    }
}

/// The value a table holds under a key.
pub open spec fn field_of(t: TreeView, key: Seq<char>) -> Option<TreeView> {
    match t {
        TreeView::Table(entries) => {
            let i = entry_index(entries, key);
            if i < entries.len() {
                Some(entries[i].1)
            } else {
                None
            }
        },
        _ => None,
    }
}

/// The value under a key of an optional table.
pub open spec fn field_in(t: Option<TreeView>, key: Seq<char>) -> Option<TreeView> {
    match t {
        Some(t) => field_of(t, key),
        None => None,
    }
}

/// A part of a record of `n` parts: the entry under its key where the record is a
/// table, the item at its place where it is a list of exactly the parts.
pub open spec fn part_of(t: TreeView, key: Seq<char>, i: int, n: int) -> Option<TreeView> {
    match t {
        TreeView::List(items) => if items.len() == n {
            Some(items[i])
        } else {
            None
        },
        _ => field_of(t, key),
    }
}

/// A part of an optional record.
pub open spec fn part_in(t: Option<TreeView>, key: Seq<char>, i: int, n: int) -> Option<TreeView> {
    match t {
        Some(t) => part_of(t, key, i, n),
        None => None,
    }
}

/// The text of a value that is one.
pub open spec fn text_of(t: Option<TreeView>) -> Option<Seq<char>> {
    match t {
        Some(TreeView::Text(s)) => Some(s),
        _ => None,
    }
}

proof fn lemma_entry_index_is(entries: Seq<(Seq<char>, TreeView)>, key: Seq<char>, i: int)
    requires
        0 <= i <= entries.len(),
        forall|j: int| 0 <= j < i ==> (#[trigger] entries[j]).0 != key,
        i < entries.len() ==> entries[i].0 == key,
    ensures
        entry_index(entries, key) == i,
    decreases entries.len(),
{
    if i > 0 {
        let rest = entries.drop_first();
        assert(entries[0].0 != key);
        assert forall|j: int| 0 <= j < i - 1 implies (#[trigger] rest[j]).0 != key by {
            assert(rest[j] == entries[j + 1]);
        }
        lemma_entry_index_is(rest, key, i - 1);
    }
}

/// The value a table holds under a key; `None` for anything that is no table.
pub fn field<'a>(t: &'a Tree, key: &str) -> (r: Option<&'a Tree>)
    ensures
        match r {
            Some(v) => field_of(t@, key@) == Some(v@),
            None => field_of(t@, key@) is None,
        },
{
    match t {
        Tree::Table(entries) => {
            let ghost views = table_views(entries@);
            let mut i: usize = 0;
            proof {
                lemma_table_view(*entries);
            }
            while i < entries.len()
                invariant
                    i <= entries@.len(),
                    views == table_views(entries@),
                    t@ == TreeView::Table(views),
                    forall|j: int| 0 <= j < i ==> (#[trigger] views[j]).0 != key@,
                decreases entries@.len() - i,
            {
                proof {
                    assert(views[i as int] == (entries@[i as int].0@, entries@[i as int].1@));
                }
                if text::same(entries[i].0.as_str(), key) {
                    proof {
                        lemma_entry_index_is(views, key@, i as int);
                    }
                    return Some(&entries[i].1);
                }
                i += 1;
            }
            proof {
                lemma_entry_index_is(views, key@, i as int);
            }
            None
        },
        _ => None,
    }
}

/// A part of a record of `n` parts, which is a table or a list of the parts.
pub fn part<'a>(t: &'a Tree, key: &str, i: usize, n: usize) -> (r: Option<&'a Tree>)
    requires
        i < n,
    ensures
        match r {
            Some(v) => part_of(t@, key@, i as int, n as int) == Some(v@),
            None => part_of(t@, key@, i as int, n as int) is None,
        },
{
    match t {
        Tree::List(items) => {
            proof {
                lemma_list_view(*items);
            }
            if items.len() == n {
                Some(&items[i])
            } else {
                None
            }
        },
        _ => field(t, key),
    }
}

/// The text of a value that is one.
pub fn as_text<'a>(t: Option<&'a Tree>) -> (r: Option<&'a str>)
    ensures
        match (r, t) {
            (Some(s), Some(t)) => text_of(Some(t@)) == Some(s@),
            (Some(_), None) => false,
            (None, Some(t)) => text_of(Some(t@)) is None,
            (None, None) => true,
        },
{
    match t {
        Some(Tree::Text(s)) => Some(s.as_str()),
        _ => None,
    }
}

/// What a table holds under a key is the value of the first entry with that key, and
/// nothing where no entry has it. What is no table holds nothing under any key.
pub proof fn fields_are_found_by_their_key(
    t: TreeView,
    entries: Seq<(Seq<char>, TreeView)>,
    key: Seq<char>,
    i: int,
)
    requires
        0 <= i < entries.len(),
        entries[i].0 == key,
        forall|j: int| 0 <= j < i ==> (#[trigger] entries[j]).0 != key,
    ensures
        field_of(TreeView::Table(entries), key) == Some(entries[i].1),
        field_of(TreeView::Table(entries.take(i)), key) is None,
        !(t is Table) ==> field_of(t, key) is None,
{
    lemma_entry_index_is(entries, key, i);
    let before = entries.take(i);
    assert forall|j: int| 0 <= j < i implies (#[trigger] before[j]).0 != key by {
        assert(before[j] == entries[j]);
    }
    lemma_entry_index_is(before, key, i);
}

/// A part of a record is found by its key in a table and by its place in a list, and
/// a list of another length is no record.
pub proof fn records_are_tables_or_lists(
    items: Seq<TreeView>,
    entries: Seq<(Seq<char>, TreeView)>,
    key: Seq<char>,
    i: int,
    n: int,
)
    requires
        0 <= i < n,
    ensures
        items.len() == n ==> part_of(TreeView::List(items), key, i, n) == Some(items[i]),
        items.len() != n ==> part_of(TreeView::List(items), key, i, n) is None,
        part_of(TreeView::Table(entries), key, i, n) == field_of(TreeView::Table(entries), key),
{
}

} // verus!
