//! The package manager's configuration, and the protocol that switches the
//! active mirror in it.
//!
//! The document always holds the tables `source`, `registries` and `net`.
//! The active mirror is the string under `source.crates-io.replace-with`;
//! where there is none, the package manager's own origin is active. Nothing
//! but the keys named in [`switched`] and [`loaded`] is ever touched.

use crate::constants::{
    CRATES_IO, GIT_FETCH_WITH_CLI, INDEX, NET, REGISTRIES, REGISTRY, REPLACE_WITH, RUST_LANG,
    SOURCE,
};
use crate::description::RegistryDescription;
use crate::error::{Error, ErrorView, Kind, Operation};
use crate::toml::{
    entry, flag_item, get_table, get_table_mut, get_text, has_key, item_as_str,
    item_as_table, parsed_document, put, subtable, table_get, table_item, table_nodes,
    table_remove, text_at, text_item, Node, Toml, Tree,
};
use crate::text::{str_eq, trimmed};
use toml_edit::Table;
use vstd::prelude::*;

verus! {

/// How a schema failure names `source.crates-io`.
pub const CRATES_IO_FIELD: &'static str = "[source.crates-io]";

/// How a schema failure names `source.crates-io.replace-with`.
pub const REPLACE_WITH_FIELD: &'static str = "[source.crates-io] 下的 replace-with";

/// The keys that this module tells apart are different texts.
pub proof fn lemma_key_names()
    ensures
        SOURCE@ != REGISTRIES@,
        SOURCE@ != NET@,
        REGISTRIES@ != NET@,
        RUST_LANG@ != CRATES_IO@,
        REGISTRY@ != REPLACE_WITH@,
{
    reveal_strlit("source");
    reveal_strlit("registries");
    reveal_strlit("net");
    reveal_strlit("rust-lang");
    reveal_strlit("crates-io");
    reveal_strlit("registry");
    reveal_strlit("replace-with");
    assert(SOURCE@.len() == 6);
    assert(REGISTRIES@.len() == 10);
    assert(NET@.len() == 3);
    assert(REGISTRY@.len() == 8);
    assert(REPLACE_WITH@.len() == 12);
    assert(RUST_LANG@[0] != CRATES_IO@[0]);
}

/// The three tables that a loaded document holds.
pub open spec fn well_formed(root: Tree) -> bool {
    &&& subtable(root, SOURCE@) is Some
    &&& subtable(root, REGISTRIES@) is Some
    &&& subtable(root, NET@) is Some
}

/// The `source` table of a loaded document.
pub open spec fn source_of(root: Tree) -> Tree {
    root[SOURCE@]->Table_0
}

/// The `registries` table of a loaded document.
pub open spec fn registries_of(root: Tree) -> Tree {
    root[REGISTRIES@]->Table_0
}

/// `root` with an empty table under `key` where nothing stands there; a
/// failure where something else than a table does.
pub open spec fn with_table(root: Tree, key: Seq<char>) -> Result<Tree, ErrorView> {
    match entry(root, key) {
        None => Ok(root.insert(key, Node::Table(Map::empty()))),
        Some(Node::Table(_)) => Ok(root),
        Some(_) => Err(ErrorView::ConfigSchema { field: key, expected: Kind::Table }),
    }
}

/// `root` with `net.git-fetch-with-cli = true` unless the key is there.
pub open spec fn with_git_fetch(root: Tree) -> Tree {
    let net = root[NET@]->Table_0;
    if net.contains_key(GIT_FETCH_WITH_CLI@) {
        root
    } else {
        root.insert(NET@, Node::Table(net.insert(GIT_FETCH_WITH_CLI@, Node::Flag(true))))
    }
}

/// What loading makes of a parsed document: `source`, `registries` and `net`
/// are created as empty tables where they are missing, in this order, and
/// the first of them that is something else than a table is the failure;
/// then `net.git-fetch-with-cli` is set unless it is there.
pub open spec fn loaded(root: Tree) -> Result<Tree, ErrorView> {
    match with_table(root, SOURCE@) {
        Err(e) => Err(e),
        Ok(r1) => match with_table(r1, REGISTRIES@) {
            Err(e) => Err(e),
            Ok(r2) => match with_table(r2, NET@) {
                Err(e) => Err(e),
                Ok(r3) => Ok(with_git_fetch(r3)),
            },
        },
    }
}

/// The name of the active mirror: the string under
/// `source.crates-io.replace-with`, the default mirror name where the key or
/// the table is missing, and a failure where either has the wrong kind.
pub open spec fn active(root: Tree) -> Result<Seq<char>, ErrorView> {
    match entry(source_of(root), CRATES_IO@) {
        None => Ok(RUST_LANG@),
        Some(Node::Table(c)) => match entry(c, REPLACE_WITH@) {
            None => Ok(RUST_LANG@),
            Some(Node::Text(n)) => Ok(n),
            Some(_) => Err(
                ErrorView::ConfigSchema { field: REPLACE_WITH_FIELD@, expected: Kind::Text },
            ),
        },
        Some(_) => Err(ErrorView::ConfigSchema { field: CRATES_IO_FIELD@, expected: Kind::Table }),
    }
}

/// The index address that the document records for `name`: the string under
/// `source.<name>.registry`, if that table and that string are there.
pub open spec fn address_of(root: Tree, name: Seq<char>) -> Option<Seq<char>> {
    match subtable(source_of(root), name) {
        Some(t) => text_at(t, REGISTRY@),
        None => None,
    }
}

/// `root` with an empty `source.crates-io` unless something stands there.
pub open spec fn with_crates_io(root: Tree) -> Tree {
    if source_of(root).contains_key(CRATES_IO@) {
        root
    } else {
        root.insert(
            SOURCE@,
            Node::Table(source_of(root).insert(CRATES_IO@, Node::Table(Map::empty()))),
        )
    }
}

/// The address that the last pair of `remaining` with the name `n` gives.
pub open spec fn addr_for(remaining: Seq<(Seq<char>, Seq<char>)>, n: Seq<char>) -> Option<
    Seq<char>,
>
    decreases remaining.len(),
{
    if remaining.len() == 0 {
        None
    } else if remaining.last().0 == n {
        Some(remaining.last().1)
    } else {
        addr_for(remaining.drop_last(), n)
    }
}

/// The table that `registries.<n>` is after a switch: its index and nothing
/// else.
pub open spec fn index_table(addr: Seq<char>) -> Node {
    Node::Table(Map::<Seq<char>, Node>::empty().insert(INDEX@, Node::Text(addr)))
}

/// The `registries` table after a switch to `name`: every name of `remaining`
/// is bound to a table with just its index, `name` is unbound unless
/// `remaining` holds it, and every other key is as before.
pub open spec fn refreshed(
    regs: Tree,
    name: Seq<char>,
    remaining: Seq<(Seq<char>, Seq<char>)>,
) -> Tree {
    Map::new(
        |k: Seq<char>| addr_for(remaining, k) is Some || (regs.contains_key(k) && k != name),
        |k: Seq<char>|
            match addr_for(remaining, k) {
                Some(a) => index_table(a),
                None => regs[k],
            },
    )
}

/// The `source` table after a switch from `old` to `name`, given that
/// `source.crates-io` is a table: `replace-with` names `name`, or is removed
/// where `name` is the default mirror name; `source.<old>` is removed unless
/// `old` is the default mirror name; and `source.<name>.registry` is `addr`
/// unless `name` is the default mirror name.
pub open spec fn switched_source(
    source: Tree,
    old: Seq<char>,
    name: Seq<char>,
    addr: Seq<char>,
) -> Tree {
    let c = source[CRATES_IO@]->Table_0;
    let c2 = if name == RUST_LANG@ {
        c.remove(REPLACE_WITH@)
    } else {
        c.insert(REPLACE_WITH@, Node::Text(name))
    };
    let s2 = source.insert(CRATES_IO@, Node::Table(c2));
    let s3 = if old != RUST_LANG@ {
        s2.remove(old)
    } else {
        s2
    };
    if name == RUST_LANG@ {
        s3
    } else {
        let t = match subtable(s3, name) {
            Some(t) => t,
            None => Map::empty(),
        };
        s3.insert(name, Node::Table(t.insert(REGISTRY@, Node::Text(addr))))
    }
}

/// What a switch to `name` makes of a loaded document, where `addr` is the
/// index address of the catalog's entry for `name` (`None`: the catalog has
/// none) and `remaining` are the names and addresses to record under
/// `registries`.
///
/// It fails, and leaves the document alone, where the catalog has no entry,
/// where the active mirror cannot be read, and where `source.<name>` is
/// there, is no table and would not be removed as the old mirror's.
pub open spec fn switched(
    root: Tree,
    name: Seq<char>,
    addr: Option<Seq<char>>,
    remaining: Seq<(Seq<char>, Seq<char>)>,
) -> Result<Tree, ErrorView> {
    match addr {
        None => Err(ErrorView::MirrorNotFound { name, operation: Operation::Select }),
        Some(addr) => match active(root) {
            Err(e) => Err(e),
            Ok(old) => if name != RUST_LANG@ && name != old && source_of(root).contains_key(name)
                && !(source_of(root)[name] is Table) {
                Err(ErrorView::ConfigSchema { field: name, expected: Kind::Table })
            } else {
                Ok(
                    root.insert(
                        SOURCE@,
                        Node::Table(
                            switched_source(source_of(with_crates_io(root)), old, name, addr),
                        ),
                    ).insert(
                        REGISTRIES@,
                        Node::Table(refreshed(registries_of(root), name, remaining)),
                    ),
                )
            },
        },
    }
}

/// The names and addresses of a list of pairs of string slices.
pub open spec fn pairs(v: Seq<(&str, &str)>) -> Seq<(Seq<char>, Seq<char>)> {
    v.map_values(|p: (&str, &str)| (p.0@, p.1@))
}

/// The text of an optional string.
pub open spec fn opt_text(o: Option<String>) -> Option<Seq<char>> {
    match o {
        Some(s) => Some(s@),
        None => None,
    }
}

/// The index address of an optional description.
pub open spec fn opt_registry(d: Option<&RegistryDescription>) -> Option<Seq<char>> {
    match d {
        Some(d) => Some(d.registry@),
        None => None,
    }
}

proof fn lemma_addr_for_member(remaining: Seq<(Seq<char>, Seq<char>)>, j: int)
    requires
        0 <= j < remaining.len(),
    ensures
        addr_for(remaining, remaining[j].0) is Some,
    decreases remaining.len(),
{
    if remaining.last().0 != remaining[j].0 {
        lemma_addr_for_member(remaining.drop_last(), j);
    }
}

/// `regs` without `name` and without the names of the first `i` pairs.
spec fn cleared_upto(
    regs: Tree,
    name: Seq<char>,
    remaining: Seq<(Seq<char>, Seq<char>)>,
    i: int,
) -> Tree {
    Map::new(
        |k: Seq<char>| regs.contains_key(k) && k != name && addr_for(remaining.take(i), k) is None,
        |k: Seq<char>| regs[k],
    )
}

/// `regs` cleared, with the first `j` pairs recorded.
spec fn filled_upto(
    regs: Tree,
    name: Seq<char>,
    remaining: Seq<(Seq<char>, Seq<char>)>,
    j: int,
) -> Tree {
    Map::new(
        |k: Seq<char>|
            addr_for(remaining.take(j), k) is Some || (regs.contains_key(k) && k != name
                && addr_for(remaining, k) is None),
        |k: Seq<char>|
            match addr_for(remaining.take(j), k) {
                Some(a) => index_table(a),
                None => regs[k],
            },
    )
}

/// A switch leaves a loaded document loaded.
pub proof fn lemma_switched_well_formed(
    root: Tree,
    name: Seq<char>,
    addr: Option<Seq<char>>,
    remaining: Seq<(Seq<char>, Seq<char>)>,
)
    requires
        well_formed(root),
        switched(root, name, addr, remaining) is Ok,
    ensures
        well_formed(switched(root, name, addr, remaining)->Ok_0),
{
    lemma_key_names();
}

/// A switch touches nothing but what it owns: every other top-level key,
/// every key of `source` but `crates-io`, the old mirror's and the new
/// one's, every key of `source.crates-io` but `replace-with`, and every key
/// of `registries` but the new mirror's and those of `remaining` are as
/// before.
pub proof fn lemma_switch_preserves_unrelated(
    root: Tree,
    name: Seq<char>,
    addr: Seq<char>,
    remaining: Seq<(Seq<char>, Seq<char>)>,
    key: Seq<char>,
)
    requires
        well_formed(root),
        switched(root, name, Some(addr), remaining) is Ok,
    ensures
        ({
            let after = switched(root, name, Some(addr), remaining)->Ok_0;
            let old = active(root)->Ok_0;
            &&& key != SOURCE@ && key != REGISTRIES@ ==> entry(after, key) == entry(root, key)
            &&& key != CRATES_IO@ && key != old && key != name ==> entry(source_of(after), key)
                == entry(source_of(root), key)
            &&& key != REPLACE_WITH@ && old != CRATES_IO@ && name != CRATES_IO@ ==> (match subtable(
                source_of(root),
                CRATES_IO@,
            ) {
                Some(c) => subtable(source_of(after), CRATES_IO@) matches Some(c2) && entry(c2, key)
                    == entry(c, key),
                None => subtable(source_of(after), CRATES_IO@) matches Some(c2) && entry(c2, key)
                    is None,
            })
            &&& key != name && addr_for(remaining, key) is None ==> entry(
                registries_of(after),
                key,
            ) == entry(registries_of(root), key)
        }),
{
    lemma_key_names();
}

/// Loading touches nothing but what it owns: every top-level key but
/// `source`, `registries` and `net` is as before, `source` and `registries`
/// are as before where they were there, and so is every key of `net`.
pub proof fn lemma_load_preserves_unrelated(root: Tree, key: Seq<char>)
    requires
        loaded(root) is Ok,
    ensures
        ({
            let after = loaded(root)->Ok_0;
            &&& well_formed(after)
            &&& subtable(after, NET@)->0.contains_key(GIT_FETCH_WITH_CLI@)
            &&& key != NET@ && root.contains_key(key) ==> entry(after, key) == entry(root, key)
            &&& key != SOURCE@ && key != REGISTRIES@ && key != NET@ ==> entry(after, key) == entry(
                root,
                key,
            )
            &&& (subtable(root, NET@) matches Some(net) && net.contains_key(key)) ==> entry(
                subtable(after, NET@)->0,
                key,
            ) == entry(subtable(root, NET@)->0, key)
        }),
{
    lemma_key_names();
}

/// After a switch to `name` the active mirror is `name`. Where `name` is not
/// the default mirror name, the document records `addr` for it; where it is,
/// `replace-with` is gone, not blanked, and the document records for it what
/// it recorded before.
///
/// This does not hold of a document whose `replace-with` reads `crates-io`:
/// there the switch removes `source.crates-io` as the old mirror's table.
pub proof fn lemma_switch_then_current(
    root: Tree,
    name: Seq<char>,
    addr: Seq<char>,
    remaining: Seq<(Seq<char>, Seq<char>)>,
)
    requires
        well_formed(root),
        switched(root, name, Some(addr), remaining) is Ok,
        active(root) != Ok::<Seq<char>, ErrorView>(CRATES_IO@),
    ensures
        ({
            let after = switched(root, name, Some(addr), remaining)->Ok_0;
            &&& active(after) == Ok::<Seq<char>, ErrorView>(name)
            &&& name != RUST_LANG@ ==> address_of(after, name) == Some(addr)
            &&& name == RUST_LANG@ ==> {
                &&& subtable(source_of(after), CRATES_IO@) matches Some(c)
                &&& !c.contains_key(REPLACE_WITH@)
                &&& address_of(after, name) == address_of(root, name)
            }
        }),
{
    lemma_key_names();
}

/// Whether a second switch with the same arguments can change nothing: the
/// old and the new mirror are not called `crates-io`, and `source.<name>`,
/// where the first switch keeps it, holds nothing but its `registry`.
pub open spec fn repeatable(root: Tree, name: Seq<char>) -> bool {
    &&& name != CRATES_IO@
    &&& active(root) != Ok::<Seq<char>, ErrorView>(CRATES_IO@)
    &&& (name != RUST_LANG@ && active(root) != Ok::<Seq<char>, ErrorView>(name) ==> (
    match subtable(source_of(root), name) {
        Some(t) => forall|k: Seq<char>| t.contains_key(k) ==> k == REGISTRY@,
        None => true,
    }))
}

/// A switch is idempotent: the same switch applied to its own result leaves
/// the document as it is.
///
/// This holds of the inputs that [`repeatable`] admits. On the others the
/// second switch removes, as the old mirror's table, what the first one kept:
/// the other keys of a `source.<name>` that was there before, or
/// `source.crates-io` itself.
pub proof fn lemma_switch_idempotent(
    root: Tree,
    name: Seq<char>,
    addr: Seq<char>,
    remaining: Seq<(Seq<char>, Seq<char>)>,
)
    requires
        well_formed(root),
        switched(root, name, Some(addr), remaining) is Ok,
        repeatable(root, name),
    ensures
        switched(switched(root, name, Some(addr), remaining)->Ok_0, name, Some(addr), remaining)
            == switched(root, name, Some(addr), remaining),
{
    lemma_key_names();
    lemma_switch_then_current(root, name, addr, remaining);
    let once = switched(root, name, Some(addr), remaining)->Ok_0;
    let old = active(root)->Ok_0;
    assert(active(once) == Ok::<Seq<char>, ErrorView>(name));
    assert(with_crates_io(once) == once);
    let regs = registries_of(root);
    assert(refreshed(refreshed(regs, name, remaining), name, remaining) =~= refreshed(
        regs,
        name,
        remaining,
    ));
    let s0 = source_of(with_crates_io(root));
    let s1 = switched_source(s0, old, name, addr);
    let s2 = switched_source(s1, name, name, addr);
    assert(source_of(once) == s1);
    if name == RUST_LANG@ {
        assert(s1[CRATES_IO@]->Table_0.remove(REPLACE_WITH@) =~= s1[CRATES_IO@]->Table_0);
        assert(s2 =~= s1);
    } else {
        assert(s1[CRATES_IO@]->Table_0.insert(REPLACE_WITH@, Node::Text(name))
            =~= s1[CRATES_IO@]->Table_0);
        assert(s1[name]->Table_0 =~= Map::<Seq<char>, Node>::empty().insert(
            REGISTRY@,
            Node::Text(addr),
        ));
        assert(s2 =~= s1);
    }
    let twice = switched(once, name, Some(addr), remaining)->Ok_0;
    assert(twice =~= once);
}

/// Creates an empty table under `key` where nothing stands there.
fn verify_field_exists(data: &mut Table, key: &str) -> (r: Result<(), Error>)
    ensures
        match with_table(table_nodes(*old(data)), key@) {
            Ok(t) => r is Ok && table_nodes(*final(data)) == t,
            Err(e) => r matches Err(x) && x@ == e && table_nodes(*final(data)) == table_nodes(
                *old(data),
            ),
        },
{
    match table_get(data, key) {
        Some(item) => {
            if item_as_table(item).is_none() {
                return Err(Error::schema(key, Kind::Table));
            }
        },
        None => {
            put(data, key, table_item());
        },
    }
    Ok(())
}

/// The package manager's configuration, loaded and ready to be edited.
#[derive(Debug)]
pub struct CargoConfig {
    data: Toml,
}

impl View for CargoConfig {
    type V = Tree;

    closed spec fn view(&self) -> Tree {
        self.data.nodes()
    }
}

impl CargoConfig {
    /// The document is as a parsed document is: its root is a table.
    pub closed spec fn intact(&self) -> bool {
        self.data.wf()
    }

    /// The configuration is a document that holds its three tables.
    pub open spec fn wf(&self) -> bool {
        self.intact() && well_formed(self@)
    }

    /// The text that the configuration renders to, before trimming.
    pub closed spec fn text(&self) -> Seq<char> {
        self.data.text()
    }

    /// Loads the configuration from the text of its file; the text of a
    /// missing file is empty.
    pub fn new(text: &str) -> (r: Result<CargoConfig, Error>)
        ensures
            match parsed_document(text@) {
                None => r matches Err(e) && e@ == ErrorView::ConfigParse,
                Some(root) => match loaded(root) {
                    Ok(t) => r matches Ok(c) && c@ == t && c.wf(),
                    Err(e) => r matches Err(x) && x@ == e,
                },
            },
    {
        match Toml::parse(text) {
            Ok(config) => CargoConfig::from_toml(config),
            Err(_) => Err(Error::ConfigParse),
        }
    }

    /// Loads the configuration from a parsed document.
    pub fn from_toml(config: Toml) -> (r: Result<CargoConfig, Error>)
        requires
            config.wf(),
        ensures
            match loaded(config.nodes()) {
                Ok(t) => r matches Ok(c) && c@ == t && c.wf(),
                Err(e) => r matches Err(x) && x@ == e,
            },
    {
        let mut config = config;
        let ghost root0 = config.nodes();
        proof {
            lemma_key_names();
        }
        let data = config.table_mut();
        match verify_field_exists(data, SOURCE) {
            Err(e) => {
                return Err(e);
            },
            Ok(()) => {},
        }
        match verify_field_exists(data, REGISTRIES) {
            Err(e) => {
                return Err(e);
            },
            Ok(()) => {},
        }
        match verify_field_exists(data, NET) {
            Err(e) => {
                return Err(e);
            },
            Ok(()) => {},
        }
        let net = get_table_mut(data, NET);
        if !has_key(net, GIT_FETCH_WITH_CLI) {
            put(net, GIT_FETCH_WITH_CLI, flag_item(true));
        }
        assert(config.nodes() =~= loaded(root0)->Ok_0);
        Ok(CargoConfig { data: config })
    }

    /// The text to write to the configuration file.
    pub fn make(&self) -> (r: String)
        requires
            self.wf(),
        ensures
            r@ == trimmed(self.text()),
    {
        self.data.toml_string()
    }

    /// The table under the top-level `key`, for editing.
    fn section_mut(&mut self, key: &str) -> (r: &mut Table)
        requires
            old(self).intact(),
            subtable(old(self)@, key@) is Some,
        ensures
            Some(table_nodes(*r)) == subtable(old(self)@, key@),
            final(self).intact(),
            final(self)@ == old(self)@.insert(key@, Node::Table(table_nodes(*final(r)))),
    {
        let root = self.data.table_mut();
        get_table_mut(root, key)
    }

    /// Reads the active mirror and the address recorded for it.
    pub(crate) fn peek(&self) -> (r: Result<(String, Option<String>), Error>)
        requires
            self.wf(),
        ensures
            match active(self@) {
                Ok(n) => r matches Ok(p) && p.0@ == n && opt_text(p.1) == address_of(self@, n),
                Err(e) => r matches Err(x) && x@ == e,
            },
    {
        let root = self.data.table();
        let source = get_table(root, SOURCE).unwrap();
        let name: String = match table_get(source, CRATES_IO) {
            None => RUST_LANG.to_owned(),
            Some(item) => match item_as_table(item) {
                None => {
                    return Err(Error::schema(CRATES_IO_FIELD, Kind::Table));
                },
                Some(c) => match table_get(c, REPLACE_WITH) {
                    None => RUST_LANG.to_owned(),
                    Some(v) => match item_as_str(v) {
                        Some(n) => n.to_owned(),
                        None => {
                            return Err(Error::schema(REPLACE_WITH_FIELD, Kind::Text));
                        },
                    },
                },
            },
        };
        let addr: Option<String> = match get_table(source, name.as_str()) {
            Some(t) => match get_text(t, REGISTRY) {
                Some(a) => Some(a.to_owned()),
                None => None,
            },
            None => None,
        };
        Ok((name, addr))
    }

    /// Creates `source.crates-io` as an empty table where nothing stands
    /// there.
    fn fill_crates_io(&mut self)
        requires
            old(self).wf(),
        ensures
            final(self)@ == with_crates_io(old(self)@),
            final(self).wf(),
    {
        proof {
            lemma_key_names();
        }
        let source = self.section_mut(SOURCE);
        if !has_key(source, CRATES_IO) {
            put(source, CRATES_IO, table_item());
        }
        assert(final(self)@ =~= with_crates_io(old(self)@));
    }

    /// The active mirror: its name and, where the document records one under
    /// `source.<name>.registry`, its index address. This is a read: the
    /// document stays as it is.
    pub fn current(&mut self) -> (r: Result<(String, Option<String>), Error>)
        requires
            old(self).wf(),
        ensures
            *final(self) == *old(self),
            match active(old(self)@) {
                Ok(n) => r matches Ok(p) && p.0@ == n && opt_text(p.1) == address_of(old(self)@, n),
                Err(e) => r matches Err(x) && x@ == e,
            },
    {
        self.peek()
    }

    /// Points `source.crates-io.replace-with` at `registry_name`, or removes
    /// the key where that is the default mirror name.
    fn replace_with(&mut self, registry_name: &str)
        requires
            old(self).wf(),
            subtable(source_of(old(self)@), CRATES_IO@) is Some,
        ensures
            final(self).wf(),
            final(self)@ == old(self)@.insert(
                SOURCE@,
                Node::Table(
                    source_of(old(self)@).insert(
                        CRATES_IO@,
                        Node::Table(
                            if registry_name@ == RUST_LANG@ {
                                subtable(source_of(old(self)@), CRATES_IO@)->0.remove(REPLACE_WITH@)
                            } else {
                                subtable(source_of(old(self)@), CRATES_IO@)->0.insert(
                                    REPLACE_WITH@,
                                    Node::Text(registry_name@),
                                )
                            },
                        ),
                    ),
                ),
            ),
    {
        proof {
            lemma_key_names();
        }
        let source = self.section_mut(SOURCE);
        let crates_io = get_table_mut(source, CRATES_IO);
        if str_eq(registry_name, RUST_LANG) {
            table_remove(crates_io, REPLACE_WITH);
        } else {
            put(crates_io, REPLACE_WITH, text_item(registry_name));
        }
    }

    /// Sets the address of `registry_name` in the table under `key`:
    /// `source.<name>.registry` or `registries.<name>.index`. The entry is
    /// created where it is missing, and must be a table where it is there.
    fn append_attribute(&mut self, key: &str, registry_name: &str, addr: &str) -> (r: Result<
        (),
        Error,
    >)
        requires
            old(self).wf(),
            key@ == SOURCE@ || key@ == REGISTRIES@,
        ensures
            final(self).wf(),
            ({
                let section = subtable(old(self)@, key@)->0;
                let attr = if key@ == SOURCE@ {
                    REGISTRY@
                } else {
                    INDEX@
                };
                match entry(section, registry_name@) {
                    Some(Node::Table(t)) => r is Ok && final(self)@ == old(self)@.insert(
                        key@,
                        Node::Table(
                            section.insert(
                                registry_name@,
                                Node::Table(t.insert(attr, Node::Text(addr@))),
                            ),
                        ),
                    ),
                    None => r is Ok && final(self)@ == old(self)@.insert(
                        key@,
                        Node::Table(
                            section.insert(
                                registry_name@,
                                Node::Table(
                                    Map::<Seq<char>, Node>::empty().insert(attr, Node::Text(addr@)),
                                ),
                            ),
                        ),
                    ),
                    Some(_) => r matches Err(x) && x@ == (ErrorView::ConfigSchema {
                        field: registry_name@,
                        expected: Kind::Table,
                    }) && final(self)@ == old(self)@,
                }
            }),
    {
        proof {
            lemma_key_names();
        }
        let is_source = str_eq(key, SOURCE);
        let section = self.section_mut(key);
        match table_get(section, registry_name) {
            Some(x) => {
                if item_as_table(x).is_none() {
                    assert(final(self)@ =~= old(self)@);
                    return Err(Error::schema(registry_name, Kind::Table));
                }
            },
            None => {
                put(section, registry_name, table_item());
            },
        }
        let attr = if is_source {
            REGISTRY
        } else {
            INDEX
        };
        let target = get_table_mut(section, registry_name);
        put(target, attr, text_item(addr));
        proof {
            let before = subtable(old(self)@, key@)->0;
            let inner = match subtable(before, registry_name@) {
                Some(t) => t,
                None => Map::empty(),
            };
            let after = before.insert(
                registry_name@,
                Node::Table(inner.insert(attr@, Node::Text(addr@))),
            );
            assert(subtable(self@, key@)->0 =~= after);
            assert(self@ =~= old(self)@.insert(key@, Node::Table(after)));
        }
        Ok(())
    }

    /// Sets `source.<name>.registry`.
    fn append_registry(&mut self, registry_name: &str, addr: &str) -> (r: Result<(), Error>)
        requires
            old(self).wf(),
            entry(source_of(old(self)@), registry_name@) is None || entry(
                source_of(old(self)@),
                registry_name@,
            ) matches Some(Node::Table(_)),
        ensures
            final(self).wf(),
            r is Ok,
            final(self)@ == old(self)@.insert(
                SOURCE@,
                Node::Table(
                    source_of(old(self)@).insert(
                        registry_name@,
                        Node::Table(
                            (match subtable(source_of(old(self)@), registry_name@) {
                                Some(t) => t,
                                None => Map::empty(),
                            }).insert(REGISTRY@, Node::Text(addr@)),
                        ),
                    ),
                ),
            ),
    {
        self.append_attribute(SOURCE, registry_name, addr)
    }

    /// Sets `registries.<name>.index` for each pair, in order.
    fn append_registries(
        &mut self,
        remaining_registries: &Vec<(&str, &str)>,
        Ghost(regs): Ghost<Tree>,
        Ghost(name): Ghost<Seq<char>>,
    )
        requires
            old(self).wf(),
            registries_of(old(self)@) == filled_upto(regs, name, pairs(remaining_registries@), 0),
        ensures
            final(self).wf(),
            final(self)@ == old(self)@.insert(
                REGISTRIES@,
                Node::Table(refreshed(regs, name, pairs(remaining_registries@))),
            ),
    {
        proof {
            lemma_key_names();
        }
        let ghost rem = pairs(remaining_registries@);
        let mut i: usize = 0;
        assert(self@ =~= old(self)@.insert(
            REGISTRIES@,
            Node::Table(filled_upto(regs, name, rem, 0)),
        ));
        while i < remaining_registries.len()
            invariant
                i <= remaining_registries.len(),
                rem == pairs(remaining_registries@),
                self.wf(),
                self@ == old(self)@.insert(
                    REGISTRIES@,
                    Node::Table(filled_upto(regs, name, rem, i as int)),
                ),
            decreases remaining_registries.len() - i,
        {
            let (n, a) = remaining_registries[i];
            let ghost before = filled_upto(regs, name, rem, i as int);
            let ghost root = self@;
            proof {
                lemma_key_names();
                assert(rem[i as int] == (n@, a@));
                lemma_addr_for_member(rem, i as int);
                assert(rem.take(i + 1).drop_last() =~= rem.take(i as int));
                assert(rem.take(i + 1).last() == rem[i as int]);
            }
            let r = self.append_attribute(REGISTRIES, n, a);
            proof {
                let after = filled_upto(regs, name, rem, i + 1);
                let got = registries_of(self@);
                assert(index_table(a@)->Table_0.insert(INDEX@, Node::Text(a@)) =~= index_table(
                    a@,
                )->Table_0);
                match addr_for(rem.take(i as int), n@) {
                    Some(a0) => {
                        assert(index_table(a0)->Table_0.insert(INDEX@, Node::Text(a@))
                            =~= index_table(a@)->Table_0);
                    },
                    None => {},
                }
                assert(got =~= after);
                assert(self@ =~= old(self)@.insert(REGISTRIES@, Node::Table(after)));
            }
            i = i + 1;
        }
        proof {
            assert(rem.take(rem.len() as int) =~= rem);
            assert(filled_upto(regs, name, rem, rem.len() as int) =~= refreshed(regs, name, rem));
        }
    }

    /// Removes what stands under `registry_name` in the table under `key`.
    fn remove_attribute(&mut self, key: &str, registry_name: &str)
        requires
            old(self).wf(),
            key@ == SOURCE@ || key@ == REGISTRIES@,
        ensures
            final(self).wf(),
            final(self)@ == old(self)@.insert(
                key@,
                Node::Table(subtable(old(self)@, key@)->0.remove(registry_name@)),
            ),
    {
        proof {
            lemma_key_names();
        }
        let section = self.section_mut(key);
        table_remove(section, registry_name);
    }

    /// Removes `source.<name>` unless `name` is the default mirror name.
    fn remove_old_registry(&mut self, registry_name: &str)
        requires
            old(self).wf(),
        ensures
            final(self).wf(),
            final(self)@ == (if registry_name@ == RUST_LANG@ {
                old(self)@
            } else {
                old(self)@.insert(
                    SOURCE@,
                    Node::Table(source_of(old(self)@).remove(registry_name@)),
                )
            }),
    {
        if str_eq(registry_name, RUST_LANG) {
            return ;
        }
        self.remove_attribute(SOURCE, registry_name);
    }

    /// Removes `registries.<name>` and `registries.<n>` for each pair.
    fn remove_old_registries(
        &mut self,
        registry_name: &str,
        remaining_registries: &Vec<(&str, &str)>,
    )
        requires
            old(self).wf(),
        ensures
            final(self).wf(),
            final(self)@ == old(self)@.insert(
                REGISTRIES@,
                Node::Table(
                    filled_upto(
                        registries_of(old(self)@),
                        registry_name@,
                        pairs(remaining_registries@),
                        0,
                    ),
                ),
            ),
    {
        proof {
            lemma_key_names();
        }
        let ghost rem = pairs(remaining_registries@);
        let ghost regs = registries_of(old(self)@);
        let ghost name = registry_name@;
        self.remove_attribute(REGISTRIES, registry_name);
        assert(regs.remove(name) =~= cleared_upto(regs, name, rem, 0));
        let mut i: usize = 0;
        while i < remaining_registries.len()
            invariant
                i <= remaining_registries.len(),
                rem == pairs(remaining_registries@),
                self.wf(),
                self@ == old(self)@.insert(
                    REGISTRIES@,
                    Node::Table(cleared_upto(regs, name, rem, i as int)),
                ),
            decreases remaining_registries.len() - i,
        {
            let (n, _a) = remaining_registries[i];
            proof {
                lemma_key_names();
                assert(rem[i as int].0 == n@);
                assert(rem.take(i + 1).drop_last() =~= rem.take(i as int));
                assert(rem.take(i + 1).last() == rem[i as int]);
            }
            self.remove_attribute(REGISTRIES, n);
            proof {
                assert(cleared_upto(regs, name, rem, i as int).remove(n@) =~= cleared_upto(
                    regs,
                    name,
                    rem,
                    i + 1,
                ));
            }
            i = i + 1;
        }
        proof {
            assert(rem.take(rem.len() as int) =~= rem);
            assert(rem.take(0) =~= Seq::<(Seq<char>, Seq<char>)>::empty());
            assert(cleared_upto(regs, name, rem, rem.len() as int) =~= filled_upto(
                regs,
                name,
                rem,
                0,
            ));
        }
    }

    /// Switches the active mirror to `registry_name`, whose catalog entry is
    /// `registry_description`, and records `remaining_registries` under
    /// `registries`. The caller persists the document.
    pub fn use_registry(
        &mut self,
        registry_name: &str,
        registry_description: Option<&RegistryDescription>,
        remaining_registries: Vec<(&str, &str)>,
    ) -> (r: Result<(), Error>)
        requires
            old(self).wf(),
        ensures
            final(self).wf(),
            match switched(
                old(self)@,
                registry_name@,
                opt_registry(registry_description),
                pairs(remaining_registries@),
            ) {
                Ok(t) => r is Ok && final(self)@ == t,
                Err(e) => r matches Err(x) && x@ == e && final(self)@ == old(self)@,
            },
    {
        proof {
            lemma_key_names();
        }
        let description = match registry_description {
            Some(d) => d,
            None => {
                return Err(Error::not_found(registry_name, Operation::Select));
            },
        };
        // the mirror that is active now
        let old_name = match self.peek() {
            Ok(p) => p.0,
            Err(e) => {
                return Err(e);
            },
        };
        let is_default = str_eq(registry_name, RUST_LANG);
        if !is_default && !str_eq(registry_name, old_name.as_str()) {
            let source = get_table(self.data.table(), SOURCE).unwrap();
            match table_get(source, registry_name) {
                Some(x) => {
                    if item_as_table(x).is_none() {
                        return Err(Error::schema(registry_name, Kind::Table));
                    }
                },
                None => {},
            }
        }
        let ghost root0 = self@;
        let ghost rem = pairs(remaining_registries@);
        self.fill_crates_io();
        self.replace_with(registry_name);
        self.remove_old_registry(old_name.as_str());
        self.remove_old_registries(registry_name, &remaining_registries);
        self.append_registries(
            &remaining_registries,
            Ghost(registries_of(root0)),
            Ghost(registry_name@),
        );
        if is_default {
            assert(self@ =~= switched(
                root0,
                registry_name@,
                opt_registry(registry_description),
                rem,
            )->Ok_0);
            return Ok(());
        }
        let r = self.append_registry(registry_name, description.registry.as_str());
        assert(self@ =~= switched(
            root0,
            registry_name@,
            opt_registry(registry_description),
            rem,
        )->Ok_0);
        r
    }
}

} // verus!
