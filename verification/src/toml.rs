//! The documents this library edits, held as `toml_edit` documents so that
//! everything it does not own stays as the user wrote it.
//!
//! The verified code sees a document as a tree of [`Node`]s, and the order
//! of its keys as a [`Layout`]. The functions of `toml_edit` that it calls
//! are declared here, each with what is taken on trust about it.

use crate::text::{trim, trimmed};
use toml_edit::{DocumentMut, Item, Table, TomlError};
use vstd::prelude::*;

verus! {

/// `toml_edit::Item`: what stands under a key. The verifier sees it only
/// through [`item_node`] and [`item_layout`].
#[verifier::external_type_specification]
#[verifier::external_body]
pub struct ExItem(toml_edit::Item);

/// `toml_edit::Table`: a table of a document. The verifier sees it only
/// through [`table_nodes`] and [`table_layout`].
#[verifier::external_type_specification]
#[verifier::external_body]
pub struct ExTable(toml_edit::Table);

/// `toml_edit::DocumentMut`: a parsed document with its formatting. The
/// verifier sees it only through [`document_root`], [`document_layout`] and
/// [`document_text`].
#[verifier::external_type_specification]
#[verifier::external_body]
pub struct ExDocumentMut(toml_edit::DocumentMut);

/// `toml_edit::TomlError`: why a text is no document. Nothing is read from
/// it.
#[verifier::external_type_specification]
#[verifier::external_body]
pub struct ExTomlError(toml_edit::TomlError);

/// What stands under a key of a document.
pub enum Node {
    /// A table, with what stands under each of its keys.
    Table(Map<Seq<char>, Node>),
    /// A string value.
    Text(Seq<char>),
    /// A boolean value.
    Flag(bool),
    /// Any other value: a number, a date, an array, an inline table, an
    /// array of tables.
    Other,
}

/// The entries of a table: each key with what stands under it.
pub type Tree = Map<Seq<char>, Node>;

/// The order in which a table holds its keys, and each table under it its
/// own. Anything but a table is a leaf.
pub enum Layout {
    /// No table.
    Leaf,
    /// A table: its keys in the order in which it holds them, each with the
    /// layout of what stands under it.
    Table(Seq<(Seq<char>, Layout)>),
}

/// The keys of a table in their order, each with the layout under it.
pub type Slots = Seq<(Seq<char>, Layout)>;

/// What a `toml_edit::Table` holds: its keys that carry an item, each with
/// the node that stands for the item.
pub uninterp spec fn table_nodes(t: Table) -> Map<Seq<char>, Node>;

/// What a `toml_edit::Item` holds: `None` for the empty item.
pub uninterp spec fn item_node(i: Item) -> Option<Node>;

/// What the root item of a `toml_edit::DocumentMut` holds.
pub uninterp spec fn document_root(d: DocumentMut) -> Option<Node>;

/// The keys of a `toml_edit::Table` in the order in which it holds them,
/// those that carry the empty item too, each with the layout of its item.
pub uninterp spec fn table_layout(t: Table) -> Seq<(Seq<char>, Layout)>;

/// The layout of a `toml_edit::Item`: that of the table it is, or a leaf.
pub uninterp spec fn item_layout(i: Item) -> Layout;

/// The layout of the root item of a `toml_edit::DocumentMut`.
pub uninterp spec fn document_layout(d: DocumentMut) -> Layout;

/// The text that `toml_edit` renders a document to.
pub uninterp spec fn document_text(d: DocumentMut) -> Seq<char>;

/// What `toml_edit` makes of a text: `None` where it is no TOML document,
/// else the entries of its root table.
pub uninterp spec fn parsed_document(text: Seq<char>) -> Option<Map<Seq<char>, Node>>;

/// `m` with `key` bound to `n`, or unbound where `n` is `None`.
pub open spec fn with_entry(m: Tree, key: Seq<char>, n: Option<Node>) -> Tree {
    match n {
        Some(n) => m.insert(key, n),
        None => m.remove(key),
    }
}

/// What stands under `key` in `m`, if anything.
pub open spec fn entry(m: Tree, key: Seq<char>) -> Option<Node> {
    if m.contains_key(key) {
        Some(m[key])
    } else {
        None
    }
}

/// The table that stands under `key` in `m`, if one does.
pub open spec fn subtable(m: Tree, key: Seq<char>) -> Option<Tree> {
    match entry(m, key) {
        Some(Node::Table(t)) => Some(t),
        _ => None,
    }
}

/// The string that stands under `key` in `m`, if one does.
pub open spec fn text_at(m: Tree, key: Seq<char>) -> Option<Seq<char>> {
    match entry(m, key) {
        Some(Node::Text(s)) => Some(s),
        _ => None,
    }
}

/// The table holds the key.
pub open spec fn has_slot(l: Slots, key: Seq<char>) -> bool {
    exists|i: int| 0 <= i < l.len() && #[trigger] l[i].0 == key
}

/// The table holds the key with this layout under it.
pub open spec fn holds_slot(l: Slots, key: Seq<char>, v: Layout) -> bool {
    exists|i: int| 0 <= i < l.len() && #[trigger] l[i] == (key, v)
}

/// A table that holds a key with a layout under it holds the key.
pub proof fn lemma_holds_slot(l: Slots, key: Seq<char>, v: Layout)
    requires
        holds_slot(l, key, v),
    ensures
        has_slot(l, key),
{
    let i = choose|i: int| 0 <= i < l.len() && #[trigger] l[i] == (key, v);
    assert(l[i].0 == key);
}

/// `l` with the layout `v` under `key`, in the place where the key stands.
pub open spec fn set_slot(l: Slots, key: Seq<char>, v: Layout) -> Slots {
    l.map_values(
        |p: (Seq<char>, Layout)|
            if p.0 == key {
                (key, v)
            } else {
                p
            },
    )
}

/// `l` with the layout `v` under `key`: in the place where the key stands,
/// or behind all others where `l` does not hold it.
pub open spec fn put_slot(l: Slots, key: Seq<char>, v: Layout) -> Slots {
    if has_slot(l, key) {
        set_slot(l, key, v)
    } else {
        l.push((key, v))
    }
}

/// What is put under a key is what the table then holds under it.
pub proof fn lemma_slot_after_put(l: Slots, key: Seq<char>, a: Layout, v: Layout)
    requires
        holds_slot(put_slot(l, key, a), key, v),
    ensures
        v == a,
{
    let m = put_slot(l, key, a);
    let i = choose|i: int| 0 <= i < m.len() && #[trigger] m[i] == (key, v);
    if has_slot(l, key) {
        assert(m[i] == (if l[i].0 == key {
            (key, a)
        } else {
            l[i]
        }));
    } else if i < l.len() {
        assert(l[i].0 == key);
    }
}

/// Setting a layout under a key that was just put is putting that layout.
pub proof fn lemma_set_after_put(l: Slots, key: Seq<char>, a: Layout, v: Layout)
    ensures
        set_slot(put_slot(l, key, a), key, v) == put_slot(l, key, v),
{
    if has_slot(l, key) {
        assert(set_slot(set_slot(l, key, a), key, v) =~= set_slot(l, key, v));
    } else {
        let m = l.push((key, a));
        assert forall|i: int| 0 <= i < m.len() implies #[trigger] set_slot(m, key, v)[i]
            == l.push((key, v))[i] by {
            if i < l.len() {
                assert(l[i].0 != key);
            }
        }
        assert(set_slot(m, key, v) =~= l.push((key, v)));
    }
}

/// `l` without `key`; the other keys keep their order.
pub open spec fn drop_slot(l: Slots, key: Seq<char>) -> Slots {
    l.filter(|p: (Seq<char>, Layout)| p.0 != key)
}

/// `<DocumentMut as FromStr>::from_str`: parses a TOML document. The result
/// depends on the text alone, and the root item of a document is a table.
#[verifier::external_body]
pub(crate) fn parse_document(text: &str) -> (r: Result<DocumentMut, TomlError>)
    ensures
        match r {
            Ok(d) => parsed_document(text@) matches Some(root) && document_root(d) == Some(
                Node::Table(root),
            ),
            Err(_) => parsed_document(text@) is None,
        },
{
    text.parse::<DocumentMut>()
}

/// `<DocumentMut as ToString>::to_string`: renders the document. It takes
/// the root item for a table.
#[verifier::external_body]
pub(crate) fn render_document(doc: &DocumentMut) -> (r: String)
    requires
        document_root(*doc) matches Some(Node::Table(_)),
    ensures
        r@ == document_text(*doc),
{
    doc.to_string()
}

/// `DocumentMut::as_item`: the root item.
#[verifier::external_body]
pub(crate) fn root_item(doc: &DocumentMut) -> (r: &Item)
    ensures
        item_node(*r) == document_root(*doc),
        item_layout(*r) == document_layout(*doc),
{
    doc.as_item()
}

/// `DocumentMut::as_item_mut`: the root item, for editing. What the item
/// holds when the borrow ends is what the document holds.
#[verifier::external_body]
pub(crate) fn root_item_mut(doc: &mut DocumentMut) -> (r: &mut Item)
    ensures
        item_node(*r) == document_root(*old(doc)),
        item_layout(*r) == document_layout(*old(doc)),
        document_root(*final(doc)) == item_node(*final(r)),
        document_layout(*final(doc)) == item_layout(*final(r)),
{
    doc.as_item_mut()
}

/// `Table::get`: the item under `key`, unless the key is missing or carries
/// the empty item.
#[verifier::external_body]
pub(crate) fn table_get<'a>(t: &'a Table, key: &str) -> (r: Option<&'a Item>)
    ensures
        match r {
            Some(i) => {
                &&& item_node(*i) == entry(table_nodes(*t), key@)
                &&& item_node(*i) is Some
                &&& holds_slot(table_layout(*t), key@, item_layout(*i))
            },
            None => !table_nodes(*t).contains_key(key@),
        },
{
    t.get(key)
}

/// `Table::get_mut`: the item under `key`, for editing, unless the key is
/// missing or carries the empty item. When the borrow ends the table holds,
/// under `key` and in its place, what the item then holds, and is otherwise
/// as before.
#[verifier::external_body]
pub(crate) fn table_get_mut<'a>(t: &'a mut Table, key: &str) -> (r: Option<&'a mut Item>)
    ensures
        match r {
            Some(i) => {
                &&& item_node(*i) == entry(table_nodes(*old(t)), key@)
                &&& item_node(*i) is Some
                &&& holds_slot(table_layout(*old(t)), key@, item_layout(*i))
                &&& table_nodes(*final(t)) == with_entry(
                    table_nodes(*old(t)),
                    key@,
                    item_node(*final(i)),
                )
                &&& table_layout(*final(t)) == set_slot(
                    table_layout(*old(t)),
                    key@,
                    item_layout(*final(i)),
                )
            },
            None => !table_nodes(*old(t)).contains_key(key@) && *final(t) == *old(t),
        },
{
    t.get_mut(key)
}

/// `Table::insert`: binds `key` to `item`, in place where the table holds
/// the key and behind all others where it does not.
#[verifier::external_body]
pub(crate) fn table_insert(t: &mut Table, key: &str, item: Item)
    ensures
        table_nodes(*final(t)) == with_entry(table_nodes(*old(t)), key@, item_node(item)),
        table_layout(*final(t)) == put_slot(table_layout(*old(t)), key@, item_layout(item)),
{
    t.insert(key, item);
}

/// `Table::remove`: unbinds `key`; the other keys keep their order.
#[verifier::external_body]
pub(crate) fn table_remove(t: &mut Table, key: &str)
    ensures
        table_nodes(*final(t)) == table_nodes(*old(t)).remove(key@),
        table_layout(*final(t)) == drop_slot(table_layout(*old(t)), key@),
{
    t.remove(key);
}

/// `Table::iter`: the keys that carry an item, each once.
#[verifier::external_body]
pub(crate) fn table_keys(t: &Table) -> (r: Vec<String>)
    ensures
        forall|k: Seq<char>| #[trigger]
            table_nodes(*t).contains_key(k) <==> exists|i: int|
                0 <= i < r@.len() && #[trigger] r@[i]@ == k,
        forall|i: int, j: int| 0 <= i < j < r@.len() ==> r@[i]@ != r@[j]@,
{
    t.iter().map(|(k, _)| k.to_string()).collect()
}

/// `Item::as_table`: the table that the item is, if it is one.
#[verifier::external_body]
pub(crate) fn item_as_table(i: &Item) -> (r: Option<&Table>)
    ensures
        match r {
            Some(t) => item_node(*i) == Some(Node::Table(table_nodes(*t))) && item_layout(*i)
                == Layout::Table(table_layout(*t)),
            None => !(item_node(*i) matches Some(Node::Table(_))) && item_layout(*i)
                == Layout::Leaf,
        },
{
    i.as_table()
}

/// `Item::as_table_mut`: the table that the item is, for editing, if it is
/// one. When the borrow ends the item is the table as it then stands.
#[verifier::external_body]
pub(crate) fn item_as_table_mut(i: &mut Item) -> (r: Option<&mut Table>)
    ensures
        match r {
            Some(t) => {
                &&& item_node(*old(i)) == Some(Node::Table(table_nodes(*t)))
                &&& item_layout(*old(i)) == Layout::Table(table_layout(*t))
                &&& item_node(*final(i)) == Some(Node::Table(table_nodes(*final(t))))
                &&& item_layout(*final(i)) == Layout::Table(table_layout(*final(t)))
            },
            None => !(item_node(*old(i)) matches Some(Node::Table(_))) && *final(i) == *old(i),
        },
{
    i.as_table_mut()
}

/// `Item::as_str`: the string that the item is, if it is one.
#[verifier::external_body]
pub(crate) fn item_as_str(i: &Item) -> (r: Option<&str>)
    ensures
        match r {
            Some(s) => item_node(*i) == Some(Node::Text(s@)),
            None => !(item_node(*i) matches Some(Node::Text(_))),
        },
{
    i.as_str()
}

/// `toml_edit::table`: an item that is an empty table.
#[verifier::external_body]
pub(crate) fn table_item() -> (r: Item)
    ensures
        item_node(r) == Some(Node::Table(Map::empty())),
        item_layout(r) == Layout::Table(Seq::empty()),
{
    toml_edit::table()
}

/// `toml_edit::value` on a string slice: an item that is that string.
#[verifier::external_body]
pub(crate) fn text_item(v: &str) -> (r: Item)
    ensures
        item_node(r) == Some(Node::Text(v@)),
        item_layout(r) == Layout::Leaf,
{
    toml_edit::value(v)
}

/// `toml_edit::value` on a boolean: an item that is that boolean.
#[verifier::external_body]
pub(crate) fn flag_item(v: bool) -> (r: Item)
    ensures
        item_node(r) == Some(Node::Flag(v)),
        item_layout(r) == Layout::Leaf,
{
    toml_edit::value(v)
}

/// A parsed document that can be edited and rendered again.
#[derive(Debug)]
pub struct Toml {
    /// The document.
    pub doc: DocumentMut,
}

impl Toml {
    /// The root item of the document is a table, as that of every parsed
    /// document is.
    pub open spec fn wf(&self) -> bool {
        document_root(self.doc) matches Some(Node::Table(_))
    }

    /// The entries of the document's root table.
    pub open spec fn nodes(&self) -> Tree {
        match document_root(self.doc) {
            Some(Node::Table(t)) => t,
            _ => Map::empty(),
        }
    }

    /// The keys of the document's root table in their order, each with the
    /// layout under it.
    pub open spec fn layout(&self) -> Slots {
        match document_layout(self.doc) {
            Layout::Table(l) => l,
            Layout::Leaf => Seq::empty(),
        }
    }

    /// The text that the document renders to, before trimming.
    pub open spec fn text(&self) -> Seq<char> {
        document_text(self.doc)
    }

    /// Parses a TOML text.
    pub fn parse(input: &str) -> (r: Result<Toml, TomlError>)
        ensures
            match r {
                Ok(t) => t.wf() && parsed_document(input@) == Some(t.nodes()),
                Err(_) => parsed_document(input@) is None,
            },
    {
        match parse_document(input) {
            Ok(doc) => Ok(Toml { doc }),
            Err(e) => Err(e),
        }
    }

    /// The root table.
    pub fn table(&self) -> (t: &Table)
        requires
            self.wf(),
        ensures
            table_nodes(*t) == self.nodes(),
            table_layout(*t) == self.layout(),
    {
        item_as_table(root_item(&self.doc)).unwrap()
    }

    /// The root table, for editing.
    pub fn table_mut(&mut self) -> (t: &mut Table)
        requires
            old(self).wf(),
        ensures
            table_nodes(*t) == old(self).nodes(),
            table_layout(*t) == old(self).layout(),
            final(self).wf(),
            final(self).nodes() == table_nodes(*final(t)),
            final(self).layout() == table_layout(*final(t)),
    {
        item_as_table_mut(root_item_mut(&mut self.doc)).unwrap()
    }

    /// The document as text, without white space around it.
    pub fn toml_string(&self) -> (r: String)
        requires
            self.wf(),
        ensures
            r@ == trimmed(self.text()),
    {
        let text = render_document(&self.doc);
        trim(text.as_str())
    }
}

/// The item under `key` of `t`, if it is a table.
pub fn get_table<'a>(t: &'a Table, key: &str) -> (r: Option<&'a Table>)
    ensures
        match r {
            Some(s) => subtable(table_nodes(*t), key@) == Some(table_nodes(*s)) && holds_slot(
                table_layout(*t),
                key@,
                Layout::Table(table_layout(*s)),
            ),
            None => subtable(table_nodes(*t), key@) is None,
        },
{
    match table_get(t, key) {
        Some(item) => item_as_table(item),
        None => None,
    }
}

/// The item under `key` of `t`, if it is a string.
pub fn get_text<'a>(t: &'a Table, key: &str) -> (r: Option<&'a str>)
    ensures
        match r {
            Some(s) => text_at(table_nodes(*t), key@) == Some(s@),
            None => text_at(table_nodes(*t), key@) is None,
        },
{
    match table_get(t, key) {
        Some(item) => item_as_str(item),
        None => None,
    }
}

/// Whether `t` holds anything under `key`.
pub fn has_key(t: &Table, key: &str) -> (r: bool)
    ensures
        r == table_nodes(*t).contains_key(key@),
{
    table_get(t, key).is_some()
}

/// The table under `key` of `t`, for editing.
pub fn get_table_mut<'a>(t: &'a mut Table, key: &str) -> (r: &'a mut Table)
    requires
        subtable(table_nodes(*old(t)), key@) is Some,
    ensures
        Some(table_nodes(*r)) == subtable(table_nodes(*old(t)), key@),
        holds_slot(table_layout(*old(t)), key@, Layout::Table(table_layout(*r))),
        table_nodes(*final(t)) == table_nodes(*old(t)).insert(
            key@,
            Node::Table(table_nodes(*final(r))),
        ),
        table_layout(*final(t)) == set_slot(
            table_layout(*old(t)),
            key@,
            Layout::Table(table_layout(*final(r))),
        ),
{
    let item = table_get_mut(t, key).unwrap();
    item_as_table_mut(item).unwrap()
}

/// Puts `item` under `key` of `t`: in the place of what stands there, so that
/// the key keeps its position, or as a new last entry.
pub fn put(t: &mut Table, key: &str, item: Item)
    requires
        item_node(item) is Some,
    ensures
        table_nodes(*final(t)) == table_nodes(*old(t)).insert(key@, item_node(item)->0),
        table_layout(*final(t)) == put_slot(table_layout(*old(t)), key@, item_layout(item)),
{
    match table_get_mut(t, key) {
        Some(slot) => {
            proof {
                lemma_holds_slot(table_layout(*old(t)), key@, item_layout(*slot));
            }
            *slot = item;
        },
        None => {
            table_insert(t, key, item);
        },
    }
}

} // verus!
