//! The operations on mirrors: they read the catalog and the package
//! manager's configuration, and change one or the other in memory. Writing
//! the files, sending the probes and running the package manager are the
//! caller's.

use crate::cargo::{
    active, address_of, lemma_switch_then_current, loaded, opt_text, switched, well_formed,
    CargoConfig,
};
use crate::constants::{
    API_BASE_SUFFIX, APP_NAME, APP_VERSION, CARGO, CRATES_IO, CRATE_PLACEHOLDER, CRMRC_FILE,
    GIT_PREFIX, REPLACE_WITH, RUST_LANG, SOURCE, SPARSE_PREFIX, SPARSE_SUFFIX,
    VERSION_PLACEHOLDER,
};
use crate::description::DescriptionView;
use crate::error::{Error, ErrorView, Operation};
use crate::probe::{results_view, Results};
use crate::runtime::{
    catalog_layout, catalog_source, catalog_table, faultless, lookup, opened, removal_fault,
    tuples, RuntimeConfig,
};
use crate::text::{
    decimal, ends_with, has_prefix, has_suffix, lemma_trimmed_identity, push_char, push_decimal,
    replace, replaced, starts_with, str_eq, trim, trimmed, trimmed_end,
};
use crate::toml::{parsed_document, put_slot, subtable, Layout, Node, Tree};
use crate::utils::{
    append_end_spaces, is_registry_addr, is_registry_dl, is_registry_name, padded, prefix_of,
    status_prefix, NAME_COLUMN,
};
use vstd::prelude::*;
use vstd::string::StringExecFns;

verus! {

/// The separator between name and address in the listing.
pub const LIST_SEPARATOR: &'static str = "- ";

/// The separator between name and result in a report.
pub const REPORT_SEPARATOR: &'static str = " -- ";

/// The unit after a measurement in a report.
pub const MILLISECONDS: &'static str = " ms";

/// What a report says of a probe without a measurement.
pub const FAILED: &'static str = "failed";

/// The heading of the connectivity results in a report.
pub const CONNECTED_HEADING: &'static str = "网络连接延迟:";

/// The heading of the download results in a report.
pub const DOWNLOAD_HEADING: &'static str = "软件包下载延迟:";

/// The candidates of a batch of probes: each name with the address to probe,
/// if its description gives one.
pub type Candidates = Seq<(Seq<char>, Option<Seq<char>>)>;

/// The names and addresses of a list of candidates.
pub open spec fn candidates_view(v: Seq<(String, Option<String>)>) -> Candidates {
    v.map_values(|c: (String, Option<String>)| (c.0@, opt_text(c.1)))
}

/// The index address of an optional description.
pub open spec fn registry_of(d: Option<DescriptionView>) -> Option<Seq<char>> {
    match d {
        Some(d) => Some(d.registry),
        None => None,
    }
}

/// What a switch to `name` makes of the configuration `root`, with the
/// catalog `catalog`: the switch to the catalog's entry for `name`, recording
/// every mirror but the default one under `registries`.
pub open spec fn selection(catalog: RuntimeConfig, root: Tree, name: Seq<char>) -> Result<
    Tree,
    ErrorView,
> {
    switched(
        root,
        name,
        registry_of(catalog.description(name)),
        tuples(catalog.all(), None),
    )
}

/// The default mirror name has no white space around it.
pub proof fn lemma_default_name_trimmed()
    ensures
        trimmed(RUST_LANG@) == RUST_LANG@,
{
    reveal_strlit("rust-lang");
    reveal(crate::text::is_space);
    assert(RUST_LANG@.len() == 9);
    assert(RUST_LANG@[0] == 'r' && RUST_LANG@.last() == 'g');
    lemma_trimmed_identity(RUST_LANG@);
}

/// The default mirror can never be removed, whatever the catalog holds and
/// whatever white space stands around the name.
pub proof fn lemma_remove_default_refused(catalog: RuntimeConfig)
    ensures
        removal_fault(catalog@, trimmed(RUST_LANG@)) == Some(ErrorView::BuiltinProtected),
{
    lemma_default_name_trimmed();
}

/// The whole round: after the selection of the mirror `name`, which is not
/// the default one, the current mirror is `name` with the index address of
/// its catalog entry; after the selection of the default mirror that
/// follows, `replace-with` is gone and the current mirror is the default
/// one, with the address that the `source` table recorded for it at the
/// start, or none.
///
/// This does not hold where `crates-io` is the name of the mirror, or what
/// `replace-with` reads at the start.
pub proof fn lemma_select_then_default(catalog: RuntimeConfig, root: Tree, name: Seq<char>)
    requires
        well_formed(root),
        name != RUST_LANG@,
        name != CRATES_IO@,
        active(root) != Ok::<Seq<char>, ErrorView>(CRATES_IO@),
        selection(catalog, root, name) is Ok,
        catalog.description(RUST_LANG@) is Some,
    ensures
        ({
            let first = selection(catalog, root, name)->Ok_0;
            let second = selection(catalog, first, RUST_LANG@);
            &&& active(first) == Ok::<Seq<char>, ErrorView>(name)
            &&& address_of(first, name) == registry_of(catalog.description(name))
            &&& second matches Ok(last)
            &&& active(last) == Ok::<Seq<char>, ErrorView>(RUST_LANG@)
            &&& subtable(crate::cargo::source_of(last), CRATES_IO@) matches Some(c)
            &&& !c.contains_key(REPLACE_WITH@)
            &&& address_of(last, RUST_LANG@) == address_of(root, RUST_LANG@)
        }),
{
    crate::cargo::lemma_key_names();
    lemma_select_then_current(catalog, root, name);
    let first = selection(catalog, root, name)->Ok_0;
    crate::cargo::lemma_switched_well_formed(
        root,
        name,
        registry_of(catalog.description(name)),
        tuples(catalog.all(), None),
    );
    assert(selection(catalog, first, RUST_LANG@) is Ok);
    lemma_select_then_current(catalog, first, RUST_LANG@);
    assert(address_of(first, RUST_LANG@) == address_of(root, RUST_LANG@));
}

/// After the selection of a mirror, the current mirror is that mirror with
/// the index address of its catalog entry; after the selection of the
/// default mirror, `replace-with` is gone and the current mirror is the
/// default one, with the address that the `source` table recorded for it
/// before, or none.
///
/// This does not hold of a configuration whose `replace-with` reads
/// `crates-io`.
pub proof fn lemma_select_then_current(catalog: RuntimeConfig, root: Tree, name: Seq<char>)
    requires
        well_formed(root),
        selection(catalog, root, name) is Ok,
        active(root) != Ok::<Seq<char>, ErrorView>(CRATES_IO@),
    ensures
        ({
            let after = selection(catalog, root, name)->Ok_0;
            &&& active(after) == Ok::<Seq<char>, ErrorView>(name)
            &&& name != RUST_LANG@ ==> address_of(after, name) == registry_of(
                catalog.description(name),
            )
            &&& name == RUST_LANG@ ==> {
                &&& subtable(crate::cargo::source_of(after), CRATES_IO@) matches Some(c)
                &&& !c.contains_key(REPLACE_WITH@)
                &&& address_of(after, name) == address_of(root, name)
            }
        }),
{
    lemma_switch_then_current(
        root,
        name,
        registry_of(catalog.description(name))->0,
        tuples(catalog.all(), None),
    );
}

/// The address to download the probe package from, for a download template:
/// an API base gets the package's path appended, any other template has its
/// placeholders filled in.
pub open spec fn download_url(dl: Seq<char>) -> Seq<char> {
    if has_suffix(dl, API_BASE_SUFFIX@) {
        dl + seq!['/'] + APP_NAME@ + seq!['/'] + APP_VERSION@ + "/download"@
    } else {
        replaced(replaced(dl, CRATE_PLACEHOLDER@, APP_NAME@), VERSION_PLACEHOLDER@, APP_VERSION@)
    }
}

/// The address to reach the index at, for an index address: none for an
/// address that only git can read, else the address without the marker of
/// the sparse protocol.
pub open spec fn connected_url(registry: Seq<char>) -> Option<Seq<char>> {
    if has_prefix(registry, GIT_PREFIX@) {
        None
    } else {
        Some(replaced(registry, SPARSE_PREFIX@, Seq::empty()))
    }
}

/// The address of the download probe for an optional description.
pub open spec fn download_target(d: Option<DescriptionView>) -> Option<Seq<char>> {
    match d {
        Some(d) => Some(download_url(d.dl)),
        None => None,
    }
}

/// The address of the connectivity probe for an optional description.
pub open spec fn connected_target(d: Option<DescriptionView>) -> Option<Seq<char>> {
    match d {
        Some(d) => connected_url(d.registry),
        None => None,
    }
}

/// The candidates of a download probe of all mirrors: every name that does
/// not end in `-sparse`, in the order of the listing.
pub open spec fn download_candidates(catalog: RuntimeConfig) -> Candidates {
    catalog.all().filter(|e: (Seq<char>, DescriptionView)| !has_suffix(e.0, SPARSE_SUFFIX@)).map_values(
        |e: (Seq<char>, DescriptionView)| (e.0, download_target(catalog.description(e.0))),
    )
}

/// The candidates of a connectivity probe of all mirrors, in the order of
/// the listing.
pub open spec fn connected_candidates(catalog: RuntimeConfig) -> Candidates {
    catalog.all().map_values(
        |e: (Seq<char>, DescriptionView)| (e.0, connected_target(catalog.description(e.0))),
    )
}

/// The candidates among which the best mirror is looked for: every mirror
/// but the default one, each with the address of its connectivity probe.
pub open spec fn best_candidates(catalog: RuntimeConfig) -> Candidates {
    catalog.all().filter(|e: (Seq<char>, DescriptionView)| e.0 != RUST_LANG@).map_values(
        |e: (Seq<char>, DescriptionView)| (e.0, connected_target(catalog.description(e.0))),
    )
}

/// The name of the first result that has a measurement.
pub open spec fn first_measured(results: Results) -> Option<Seq<char>>
    decreases results.len(),
{
    if results.len() == 0 {
        None
    } else if results[0].1 is Some {
        Some(results[0].0)
    } else {
        first_measured(results.drop_first())
    }
}

/// What a report says of a measurement.
pub open spec fn status_text(delay: Option<u128>) -> Seq<char> {
    match delay {
        Some(ms) => decimal(ms as nat) + MILLISECONDS@,
        None => FAILED@,
    }
}

/// One line of a report.
pub open spec fn report_line(r: (Seq<char>, Option<u128>), current: Seq<char>) -> Seq<char> {
    prefix_of(r.0, current) + padded(r.0, NAME_COLUMN as nat) + REPORT_SEPARATOR@ + status_text(r.1)
}

/// The lines of a report, with a line break between one and the next.
pub open spec fn report_lines(results: Results, current: Seq<char>) -> Seq<char>
    decreases results.len(),
{
    if results.len() == 0 {
        Seq::empty()
    } else if results.len() == 1 {
        report_line(results[0], current)
    } else {
        report_lines(results.drop_last(), current) + seq!['\n'] + report_line(
            results.last(),
            current,
        )
    }
}

/// The report of a test: the connectivity results, an empty line, the
/// download results.
pub open spec fn report(connected: Results, download: Results, current: Seq<char>) -> Seq<char> {
    CONNECTED_HEADING@ + seq!['\n'] + report_lines(connected, current) + seq!['\n', '\n']
        + DOWNLOAD_HEADING@ + seq!['\n'] + report_lines(download, current)
}

/// A command of the package manager to run with the default mirror active.
#[derive(Debug)]
pub struct Passthrough {
    /// The command line.
    pub command: String,
    /// The mirror that was active, to be selected again once the command
    /// has ended, however it ended; `None` where the default mirror was
    /// active already.
    pub restore: Option<String>,
}

/// The catalog and the package manager's configuration.
#[derive(Debug)]
pub struct Registry {
    /// The catalog.
    rc: RuntimeConfig,
    /// The package manager's configuration.
    cargo: CargoConfig,
}

impl Registry {
    /// The catalog.
    pub closed spec fn catalog(&self) -> RuntimeConfig {
        self.rc
    }

    /// The package manager's configuration.
    pub closed spec fn config(&self) -> CargoConfig {
        self.cargo
    }

    /// Both parts are well-formed.
    pub open spec fn wf(&self) -> bool {
        self.catalog().wf() && self.config().wf()
    }

    /// Opens the catalog from the text of the catalog file, then loads the
    /// configuration from the text of its file; the text of a missing file
    /// is empty. A failure of the catalog comes before one of the
    /// configuration.
    pub fn new(catalog_text: &str, config_text: &str) -> (r: Result<Registry, Error>)
        ensures
            ({
                let user = parsed_document(catalog_text@);
                let builtin = parsed_document(CRMRC_FILE@);
                if !Registry::opens(user, builtin) {
                    r matches Err(e) && opened(user, builtin, Err(e))
                } else {
                    match parsed_document(config_text@) {
                        None => r matches Err(e) && e@ == ErrorView::ConfigParse,
                        Some(root) => match loaded(root) {
                            Err(e0) => r matches Err(e) && e@ == e0,
                            Ok(t) => {
                                &&& r matches Ok(reg)
                                &&& reg.wf()
                                &&& opened(user, builtin, Ok(reg.catalog()))
                                &&& reg.config()@ == t
                            },
                        },
                    }
                }
            }),
    {
        let rc = match RuntimeConfig::new(catalog_text) {
            Ok(rc) => rc,
            Err(e) => {
                return Err(e);
            },
        };
        let cargo = match CargoConfig::new(config_text) {
            Ok(cargo) => cargo,
            Err(e) => {
                return Err(e);
            },
        };
        Ok(Registry { rc, cargo })
    }

    /// Both catalog documents are documents whose `source` is missing or a
    /// table of well-formed entries.
    pub open spec fn opens(user: Option<Tree>, builtin: Option<Tree>) -> bool {
        &&& user matches Some(u)
        &&& catalog_source(u) matches Ok(us)
        &&& faultless(us)
        &&& builtin matches Some(b)
        &&& catalog_source(b) matches Ok(bs)
        &&& faultless(bs)
    }

    /// A registry of a catalog and a configuration.
    pub fn from_parts(rc: RuntimeConfig, cargo: CargoConfig) -> (r: Registry)
        ensures
            r.catalog() == rc,
            r.config() == cargo,
    {
        Registry { rc, cargo }
    }

    /// The text to write to the configuration file.
    pub fn config_text(&self) -> (r: String)
        requires
            self.wf(),
        ensures
            r@ == trimmed(self.config().text()),
    {
        self.cargo.make()
    }

    /// Rewrites the catalog document from the user's mirrors and gives the
    /// text to write to the catalog file: `source` holds one table per
    /// mirror of the user's, in the order of their names, each with its
    /// `registry` before its `dl`.
    pub fn catalog_text(&mut self) -> (r: String)
        requires
            old(self).wf(),
        ensures
            final(self).wf(),
            final(self).config() == old(self).config(),
            final(self).catalog()@.builtin == old(self).catalog()@.builtin,
            final(self).catalog()@.user == old(self).catalog()@.user,
            final(self).catalog()@.document == old(self).catalog()@.document.insert(
                SOURCE@,
                Node::Table(catalog_table(old(self).catalog()@.user)),
            ),
            final(self).catalog().layout() == put_slot(
                old(self).catalog().layout(),
                SOURCE@,
                Layout::Table(catalog_layout(old(self).catalog()@.user)),
            ),
            r@ == trimmed(final(self).catalog().text()),
    {
        self.rc.write()
    }

    /// Switches to the mirror `name`, trimmed. The caller persists the
    /// configuration where the switch succeeds.
    pub fn select(&mut self, name: Option<&String>) -> (r: Result<(), Error>)
        requires
            old(self).wf(),
        ensures
            final(self).wf(),
            final(self).catalog() == old(self).catalog(),
            match name {
                None => r matches Err(e) && e@ == ErrorView::MissingName && final(self).config()@
                    == old(self).config()@,
                Some(n) => match selection(old(self).catalog(), old(self).config()@, trimmed(n@)) {
                    Ok(t) => r is Ok && final(self).config()@ == t,
                    Err(e) => r matches Err(x) && x@ == e && final(self).config()@ == old(
                        self,
                    ).config()@,
                },
            },
    {
        let name = match is_registry_name(name) {
            Ok(n) => trim(n),
            Err(e) => {
                return Err(e);
            },
        };
        // the mirrors to record under `registries`
        let remaining_registries = self.rc.to_tuples(None);
        self.cargo.use_registry(name.as_str(), self.rc.get(name.as_str()), remaining_registries)
    }

    /// Removes the user's mirror `name`, trimmed. The caller persists the
    /// catalog where the removal succeeds.
    pub fn remove(&mut self, name: Option<&String>) -> (r: Result<(), Error>)
        requires
            old(self).wf(),
        ensures
            final(self).wf(),
            final(self).config() == old(self).config(),
            final(self).catalog()@.builtin == old(self).catalog()@.builtin,
            final(self).catalog()@.document == old(self).catalog()@.document,
            match name {
                None => r matches Err(e) && e@ == ErrorView::MissingName && final(self).catalog()@
                    == old(self).catalog()@,
                Some(n) => match removal_fault(old(self).catalog()@, trimmed(n@)) {
                    Some(e) => r matches Err(x) && x@ == e && final(self).catalog()@ == old(
                        self,
                    ).catalog()@,
                    None => r is Ok && forall|k: Seq<char>|
                        lookup(final(self).catalog()@.user, k) == (if k == trimmed(n@) {
                            None
                        } else {
                            lookup(old(self).catalog()@.user, k)
                        }),
                },
            },
    {
        let name = match is_registry_name(name) {
            Ok(n) => trim(n),
            Err(e) => {
                return Err(e);
            },
        };
        self.rc.remove(name.as_str())
    }

    /// Adds the user's mirror `name` with its index address and its download
    /// template, all three trimmed, or overwrites the one of that name. The
    /// caller persists the catalog.
    pub fn save(&mut self, name: Option<&String>, addr: Option<&String>, dl: Option<&String>) -> (r:
        Result<(), Error>)
        requires
            old(self).wf(),
        ensures
            final(self).wf(),
            final(self).config() == old(self).config(),
            final(self).catalog()@.builtin == old(self).catalog()@.builtin,
            final(self).catalog()@.document == old(self).catalog()@.document,
            name is None ==> (r matches Err(e) && e@ == ErrorView::MissingName),
            name is Some && addr is None ==> (r matches Err(e) && e@ == ErrorView::MissingAddress),
            name is Some && addr is Some && dl is None ==> (r matches Err(e) && e@
                == ErrorView::MissingDownload),
            r is Err ==> final(self).catalog()@ == old(self).catalog()@,
            name is Some && addr is Some && dl is Some ==> r is Ok && forall|k: Seq<char>|
                lookup(final(self).catalog()@.user, k) == (if k == trimmed(name->0@) {
                    Some(DescriptionView { registry: trimmed(addr->0@), dl: trimmed(dl->0@) })
                } else {
                    lookup(old(self).catalog()@.user, k)
                }),
    {
        let name = match is_registry_name(name) {
            Ok(n) => trim(n),
            Err(e) => {
                return Err(e);
            },
        };
        let addr = match is_registry_addr(addr) {
            Ok(a) => trim(a),
            Err(e) => {
                return Err(e);
            },
        };
        let dl = match is_registry_dl(dl) {
            Ok(d) => trim(d),
            Err(e) => {
                return Err(e);
            },
        };
        self.rc.save(name.as_str(), addr.as_str(), dl.as_str());
        Ok(())
    }

    /// The names of all mirrors as bullet points, one per line: what a
    /// failed selection offers instead.
    pub fn available(&self) -> (r: String)
        ensures
            r@ == crate::runtime::key_lines(self.catalog().all()),
    {
        self.rc.to_key_string()
    }

    /// The listing of all mirrors, with the marker on the line of `current`.
    pub fn list(&self, current: &String) -> (r: String)
        ensures
            r@ == trimmed_end(
                crate::runtime::listing(self.catalog().all(), current@, LIST_SEPARATOR@),
            ),
    {
        self.rc.to_string(current, Some(LIST_SEPARATOR))
    }

    /// The active mirror: its name and, where the configuration records one
    /// under `source.<name>.registry`, its index address. This is a read.
    pub fn current(&self) -> (r: Result<(String, Option<String>), Error>)
        requires
            self.wf(),
        ensures
            match active(self.config()@) {
                Ok(n) => r matches Ok(p) && p.0@ == n && opt_text(p.1) == address_of(
                    self.config()@,
                    n,
                ),
                Err(e) => r matches Err(x) && x@ == e,
            },
    {
        self.cargo.peek()
    }

    /// Switches to the default mirror.
    pub fn default(&mut self) -> (r: Result<(), Error>)
        requires
            old(self).wf(),
        ensures
            final(self).wf(),
            final(self).catalog() == old(self).catalog(),
            match selection(old(self).catalog(), old(self).config()@, RUST_LANG@) {
                Ok(t) => r is Ok && final(self).config()@ == t,
                Err(e) => r matches Err(x) && x@ == e && final(self).config()@ == old(
                    self,
                ).config()@,
            },
    {
        proof {
            lemma_default_name_trimmed();
        }
        let name = RUST_LANG.to_owned();
        self.select(Some(&name))
    }

    /// The candidates among which the best mirror is looked for: they are
    /// probed for connectivity, all at once, and the first result is waited
    /// for.
    pub fn best_candidates(&self) -> (r: Vec<(String, Option<String>)>)
        requires
            self.wf(),
        ensures
            candidates_view(r@) == best_candidates(self.catalog()),
    {
        let ghost keep = |e: (Seq<char>, DescriptionView)| e.0 != RUST_LANG@;
        let ghost pick = |e: (Seq<char>, DescriptionView)|
            (e.0, connected_target(self.catalog().description(e.0)));
        let names = self.rc.registry_names();
        let ghost all = self.rc.all();
        let mut out: Vec<(String, Option<String>)> = Vec::new();
        let mut i: usize = 0;
        assert(all.take(0) =~= Seq::<(Seq<char>, DescriptionView)>::empty());
        assert(names@.len() == all.len()) by {
            assert(crate::runtime::names_view(names@).len() == names@.len());
            assert(all.map_values(|e: (Seq<char>, DescriptionView)| e.0).len() == all.len());
        }
        while i < names.len()
            invariant
                i <= names.len(),
                names@.len() == all.len(),
                self.wf(),
                all == self.catalog().all(),
                keep == |e: (Seq<char>, DescriptionView)| e.0 != RUST_LANG@,
                pick == |e: (Seq<char>, DescriptionView)|
                    (e.0, connected_target(self.catalog().description(e.0))),
                crate::runtime::names_view(names@) == all.map_values(
                    |e: (Seq<char>, DescriptionView)| e.0,
                ),
                candidates_view(out@) == all.take(i as int).filter(keep).map_values(pick),
            decreases names.len() - i,
        {
            let name = &names[i];
            let ghost before = out@;
            proof {
                assert(crate::runtime::names_view(names@)[i as int] == name@);
                assert(all[i as int].0 == name@);
                assert(all.take(i + 1).drop_last() =~= all.take(i as int));
                assert(all.take(i + 1).last() == all[i as int]);
                reveal(Seq::filter);
            }
            if !str_eq(name.as_str(), RUST_LANG) {
                let url = self.to_connected_url(name.as_str());
                out.push((name.clone(), url));
                assert(candidates_view(out@) =~= candidates_view(before).push(
                    (name@, connected_target(self.catalog().description(name@))),
                ));
                assert(candidates_view(out@) =~= all.take(i + 1).filter(keep).map_values(pick));
            } else {
                assert(candidates_view(out@) =~= all.take(i + 1).filter(keep).map_values(pick));
            }
            i = i + 1;
        }
        assert(all.take(names.len() as int) =~= all);
        out
    }

    /// Switches to the best mirror: the first of the harvested results that
    /// has a measurement. Where none has, nothing changes and there is no
    /// mirror to switch to.
    pub fn best(&mut self, tested: &Vec<(String, Option<u128>)>) -> (r: Result<
        Option<String>,
        Error,
    >)
        requires
            old(self).wf(),
        ensures
            final(self).wf(),
            final(self).catalog() == old(self).catalog(),
            match first_measured(results_view(tested@)) {
                None => r matches Ok(None) && final(self).config()@ == old(self).config()@,
                Some(n) => match selection(old(self).catalog(), old(self).config()@, trimmed(n)) {
                    Ok(t) => r matches Ok(Some(x)) && x@ == n && final(self).config()@ == t,
                    Err(e) => r matches Err(x) && x@ == e && final(self).config()@ == old(
                        self,
                    ).config()@,
                },
            },
    {
        let ghost results = results_view(tested@);
        let mut i: usize = 0;
        assert(results.skip(0) =~= results);
        while i < tested.len()
            invariant
                i <= tested.len(),
                results == results_view(tested@),
                first_measured(results) == first_measured(results.skip(i as int)),
                *self == *old(self),
                self.wf(),
            decreases tested.len() - i,
        {
            proof {
                assert(results.skip(i as int)[0] == results[i as int]);
                assert(results[i as int] == (tested@[i as int].0@, tested@[i as int].1));
                assert(results.skip(i as int).drop_first() =~= results.skip(i + 1));
            }
            if tested[i].1.is_some() {
                let registry_name = tested[i].0.clone();
                return match self.select(Some(&registry_name)) {
                    Ok(()) => Ok(Some(registry_name)),
                    Err(e) => Err(e),
                };
            }
            i = i + 1;
        }
        Ok(None)
    }

    /// The address of the download probe of the mirror `name`.
    pub fn to_download_url(&self, name: &str) -> (r: Option<String>)
        requires
            self.wf(),
        ensures
            opt_text(r) == download_target(self.catalog().description(name@)),
    {
        match self.rc.get(name) {
            Some(rd) => {
                let dl = rd.dl.as_str();
                let url = if !ends_with(dl, API_BASE_SUFFIX) {
                    let with_name = replace(dl, CRATE_PLACEHOLDER, APP_NAME);
                    replace(with_name.as_str(), VERSION_PLACEHOLDER, APP_VERSION)
                } else {
                    let mut url = dl.to_owned();
                    push_char(&mut url, '/');
                    url.append(APP_NAME);
                    push_char(&mut url, '/');
                    url.append(APP_VERSION);
                    url.append("/download");
                    url
                };
                Some(url)
            },
            None => None,
        }
    }

    /// The candidates of a download probe: the mirror `name`, or every
    /// mirror whose name does not end in `-sparse`.
    pub fn test_download_status(&self, name: Option<&String>) -> (r: Result<
        Vec<(String, Option<String>)>,
        Error,
    >)
        requires
            self.wf(),
        ensures
            match name {
                Some(n) => match self.catalog().description(n@) {
                    Some(d) => r matches Ok(v) && candidates_view(v@) == seq![
                        (n@, Some(download_url(d.dl))),
                    ],
                    None => r matches Err(e) && e@ == (ErrorView::MirrorNotFound {
                        name: n@,
                        operation: Operation::Test,
                    }),
                },
                None => r matches Ok(v) && candidates_view(v@) == download_candidates(
                    self.catalog(),
                ),
            },
    {
        match name {
            Some(name) => {
                if self.rc.get(name.as_str()).is_none() {
                    return Err(Error::not_found(name.as_str(), Operation::Test));
                }
                let mut out: Vec<(String, Option<String>)> = Vec::new();
                out.push((name.clone(), self.to_download_url(name.as_str())));
                assert(candidates_view(out@) =~= seq![
                    (name@, download_target(self.catalog().description(name@))),
                ]);
                Ok(out)
            },
            None => {
                let ghost keep = |e: (Seq<char>, DescriptionView)| !has_suffix(e.0, SPARSE_SUFFIX@);
                let ghost pick = |e: (Seq<char>, DescriptionView)|
                    (e.0, download_target(self.catalog().description(e.0)));
                let names = self.rc.registry_names();
                let ghost all = self.rc.all();
                let mut out: Vec<(String, Option<String>)> = Vec::new();
                let mut i: usize = 0;
                assert(all.take(0) =~= Seq::<(Seq<char>, DescriptionView)>::empty());
                assert(names@.len() == all.len()) by {
                    assert(crate::runtime::names_view(names@).len() == names@.len());
                    assert(all.map_values(|e: (Seq<char>, DescriptionView)| e.0).len()
                        == all.len());
                }
                while i < names.len()
                    invariant
                        i <= names.len(),
                        names@.len() == all.len(),
                        self.wf(),
                        all == self.catalog().all(),
                        keep == |e: (Seq<char>, DescriptionView)| !has_suffix(e.0, SPARSE_SUFFIX@),
                        pick == |e: (Seq<char>, DescriptionView)|
                            (e.0, download_target(self.catalog().description(e.0))),
                        crate::runtime::names_view(names@) == all.map_values(
                            |e: (Seq<char>, DescriptionView)| e.0,
                        ),
                        candidates_view(out@) == all.take(i as int).filter(keep).map_values(pick),
                    decreases names.len() - i,
                {
                    let name = &names[i];
                    let ghost before = out@;
                    proof {
                        assert(crate::runtime::names_view(names@)[i as int] == name@);
                        assert(all[i as int].0 == name@);
                        assert(all.take(i + 1).drop_last() =~= all.take(i as int));
                        assert(all.take(i + 1).last() == all[i as int]);
                        reveal(Seq::filter);
                    }
                    if !ends_with(name.as_str(), SPARSE_SUFFIX) {
                        let url = self.to_download_url(name.as_str());
                        out.push((name.clone(), url));
                        assert(candidates_view(out@) =~= candidates_view(before).push(
                            (name@, download_target(self.catalog().description(name@))),
                        ));
                        assert(candidates_view(out@) =~= all.take(i + 1).filter(keep).map_values(
                            pick,
                        ));
                    } else {
                        assert(candidates_view(out@) =~= all.take(i + 1).filter(keep).map_values(
                            pick,
                        ));
                    }
                    i = i + 1;
                }
                assert(all.take(names.len() as int) =~= all);
                Ok(out)
            },
        }
    }

    /// The address of the connectivity probe of the mirror `name`.
    pub fn to_connected_url(&self, name: &str) -> (r: Option<String>)
        requires
            self.wf(),
        ensures
            opt_text(r) == connected_target(self.catalog().description(name@)),
    {
        match self.rc.get(name) {
            Some(rd) => {
                let registry = rd.registry.as_str();
                if starts_with(registry, GIT_PREFIX) {
                    return None;
                }
                proof {
                    reveal_strlit("");
                    assert(""@ =~= Seq::<char>::empty());
                }
                Some(replace(registry, SPARSE_PREFIX, ""))
            },
            None => None,
        }
    }

    /// The candidates of a connectivity probe: the mirror `name`, or every
    /// mirror.
    pub fn test_connected_status(&self, name: Option<&String>) -> (r: Result<
        Vec<(String, Option<String>)>,
        Error,
    >)
        requires
            self.wf(),
        ensures
            match name {
                Some(n) => match self.catalog().description(n@) {
                    Some(d) => r matches Ok(v) && candidates_view(v@) == seq![
                        (n@, connected_url(d.registry)),
                    ],
                    None => r matches Err(e) && e@ == (ErrorView::MirrorNotFound {
                        name: n@,
                        operation: Operation::Test,
                    }),
                },
                None => r matches Ok(v) && candidates_view(v@) == connected_candidates(
                    self.catalog(),
                ),
            },
    {
        match name {
            Some(name) => {
                if self.rc.get(name.as_str()).is_none() {
                    return Err(Error::not_found(name.as_str(), Operation::Test));
                }
                let mut out: Vec<(String, Option<String>)> = Vec::new();
                out.push((name.clone(), self.to_connected_url(name.as_str())));
                assert(candidates_view(out@) =~= seq![
                    (name@, connected_target(self.catalog().description(name@))),
                ]);
                Ok(out)
            },
            None => {
                let ghost pick = |e: (Seq<char>, DescriptionView)|
                    (e.0, connected_target(self.catalog().description(e.0)));
                let names = self.rc.registry_names();
                let ghost all = self.rc.all();
                let mut out: Vec<(String, Option<String>)> = Vec::new();
                let mut i: usize = 0;
                assert(all.take(0) =~= Seq::<(Seq<char>, DescriptionView)>::empty());
                assert(names@.len() == all.len()) by {
                    assert(crate::runtime::names_view(names@).len() == names@.len());
                    assert(all.map_values(|e: (Seq<char>, DescriptionView)| e.0).len()
                        == all.len());
                }
                while i < names.len()
                    invariant
                        i <= names.len(),
                        names@.len() == all.len(),
                        self.wf(),
                        all == self.catalog().all(),
                        pick == |e: (Seq<char>, DescriptionView)|
                            (e.0, connected_target(self.catalog().description(e.0))),
                        crate::runtime::names_view(names@) == all.map_values(
                            |e: (Seq<char>, DescriptionView)| e.0,
                        ),
                        candidates_view(out@) == all.take(i as int).map_values(pick),
                    decreases names.len() - i,
                {
                    let name = &names[i];
                    let ghost before = out@;
                    proof {
                        assert(crate::runtime::names_view(names@)[i as int] == name@);
                        assert(all[i as int].0 == name@);
                    }
                    let url = self.to_connected_url(name.as_str());
                    out.push((name.clone(), url));
                    assert(candidates_view(out@) =~= candidates_view(before).push(
                        (name@, connected_target(self.catalog().description(name@))),
                    ));
                    assert(all.take(i + 1) =~= all.take(i as int).push(all[i as int]));
                    assert(candidates_view(out@) =~= all.take(i + 1).map_values(pick));
                    i = i + 1;
                }
                assert(all.take(names.len() as int) =~= all);
                Ok(out)
            },
        }
    }

    /// The lines of a report for the given results.
    fn report_lines(results: &Vec<(String, Option<u128>)>, current: &String) -> (r: String)
        ensures
            r@ == report_lines(results_view(results@), current@),
    {
        let ghost all = results_view(results@);
        let mut out = String::new();
        let mut i: usize = 0;
        assert(all.take(0) =~= Seq::<(Seq<char>, Option<u128>)>::empty());
        while i < results.len()
            invariant
                i <= results.len(),
                all == results_view(results@),
                out@ == report_lines(all.take(i as int), current@),
            decreases results.len() - i,
        {
            let name = &results[i].0;
            let status = results[i].1;
            let ghost before = out@;
            if i > 0 {
                push_char(&mut out, '\n');
            }
            let prefix = status_prefix(name, current);
            let padded_name = append_end_spaces(name.as_str(), None);
            out.append(prefix.as_str());
            out.append(padded_name.as_str());
            out.append(REPORT_SEPARATOR);
            match status {
                Some(s) => {
                    push_decimal(&mut out, s);
                    out.append(MILLISECONDS);
                },
                None => {
                    out.append(FAILED);
                },
            }
            proof {
                let e = all[i as int];
                assert(e == (name@, status));
                assert(all.take(i + 1).drop_last() =~= all.take(i as int));
                assert(all.take(i + 1).last() == e);
                if i == 0 {
                    assert(out@ =~= report_line(e, current@));
                } else {
                    assert(out@ =~= before + seq!['\n'] + report_line(e, current@));
                }
            }
            i = i + 1;
        }
        assert(all.take(results.len() as int) =~= all);
        out
    }

    /// The report of a test, from the sorted results of the connectivity
    /// probes and of the download probes, with the marker on the lines of
    /// `current`.
    pub fn test(
        &self,
        current: &String,
        connected: &Vec<(String, Option<u128>)>,
        download: &Vec<(String, Option<u128>)>,
    ) -> (r: String)
        ensures
            r@ == report(results_view(connected@), results_view(download@), current@),
    {
        let first = Registry::report_lines(connected, current);
        let second = Registry::report_lines(download, current);
        let mut out = CONNECTED_HEADING.to_owned();
        push_char(&mut out, '\n');
        out.append(first.as_str());
        push_char(&mut out, '\n');
        push_char(&mut out, '\n');
        out.append(DOWNLOAD_HEADING);
        push_char(&mut out, '\n');
        out.append(second.as_str());
        assert(out@ =~= report(results_view(connected@), results_view(download@), current@));
        out
    }

    /// Prepares the run of `command` with the default mirror active:
    /// switches to the default mirror unless it is active, and says which
    /// mirror to select again afterwards.
    fn exec(&mut self, command: String) -> (r: Result<Passthrough, Error>)
        requires
            old(self).wf(),
        ensures
            final(self).wf(),
            final(self).catalog() == old(self).catalog(),
            match active(old(self).config()@) {
                Err(e) => r matches Err(x) && x@ == e && final(self).config()@ == old(
                    self,
                ).config()@,
                Ok(n) => if n == RUST_LANG@ {
                    &&& r matches Ok(p)
                    &&& p.command == command
                    &&& p.restore is None
                    &&& final(self).config()@ == old(self).config()@
                } else {
                    match selection(old(self).catalog(), old(self).config()@, RUST_LANG@) {
                        Ok(t) => {
                            &&& r matches Ok(p)
                            &&& p.command == command
                            &&& opt_text(p.restore) == Some(n)
                            &&& final(self).config()@ == t
                        },
                        Err(e) => r matches Err(x) && x@ == e && final(self).config()@ == old(
                            self,
                        ).config()@,
                    }
                },
            },
    {
        let (registry_name, _) = match self.current() {
            Ok(p) => p,
            Err(e) => {
                return Err(e);
            },
        };
        if str_eq(registry_name.as_str(), RUST_LANG) {
            return Ok(Passthrough { command, restore: None });
        }
        match self.default() {
            Ok(()) => Ok(Passthrough { command, restore: Some(registry_name) }),
            Err(e) => Err(e),
        }
    }

    /// Selects again the mirror that was active before a pass-through
    /// command, if another than the default one was.
    pub fn restore(&mut self, passthrough: &Passthrough) -> (r: Result<(), Error>)
        requires
            old(self).wf(),
        ensures
            final(self).wf(),
            final(self).catalog() == old(self).catalog(),
            match passthrough.restore {
                None => r is Ok && final(self).config()@ == old(self).config()@,
                Some(n) => match selection(old(self).catalog(), old(self).config()@, trimmed(n@)) {
                    Ok(t) => r is Ok && final(self).config()@ == t,
                    Err(e) => r matches Err(x) && x@ == e && final(self).config()@ == old(
                        self,
                    ).config()@,
                },
            },
    {
        match &passthrough.restore {
            Some(name) => self.select(Some(name)),
            None => Ok(()),
        }
    }

    /// The command line of the package manager's `verb` with `args`.
    fn command_line(verb: &str, args: &str) -> (r: String)
        ensures
            r@ == CARGO@ + seq![' '] + verb@ + seq![' '] + args@,
    {
        let mut out = CARGO.to_owned();
        push_char(&mut out, ' ');
        out.append(verb);
        push_char(&mut out, ' ');
        out.append(args);
        out
    }

    /// Prepares `cargo publish` with the trimmed `args`.
    pub fn publish(&mut self, args: String) -> (r: Result<Passthrough, Error>)
        requires
            old(self).wf(),
        ensures
            final(self).wf(),
            final(self).catalog() == old(self).catalog(),
            r matches Ok(p) ==> p.command@ == CARGO@ + seq![' '] + "publish"@ + seq![' '] + trimmed(
                args@,
            ),
            Registry::prepared(*old(self), *final(self), r),
    {
        let args = trim(args.as_str());
        self.exec(Registry::command_line("publish", args.as_str()))
    }

    /// Prepares `cargo update` with the trimmed `args`.
    pub fn update(&mut self, args: String) -> (r: Result<Passthrough, Error>)
        requires
            old(self).wf(),
        ensures
            final(self).wf(),
            final(self).catalog() == old(self).catalog(),
            r matches Ok(p) ==> p.command@ == CARGO@ + seq![' '] + "update"@ + seq![' '] + trimmed(
                args@,
            ),
            Registry::prepared(*old(self), *final(self), r),
    {
        let args = trim(args.as_str());
        self.exec(Registry::command_line("update", args.as_str()))
    }

    /// Prepares `cargo install` with the trimmed `args`, or with `--help`
    /// where there are none.
    pub fn install(&mut self, args: String) -> (r: Result<Passthrough, Error>)
        requires
            old(self).wf(),
        ensures
            final(self).wf(),
            final(self).catalog() == old(self).catalog(),
            r matches Ok(p) ==> p.command@ == CARGO@ + seq![' '] + "install"@ + seq![' '] + (
            if trimmed(args@).len() == 0 {
                "--help"@
            } else {
                trimmed(args@)
            }),
            Registry::prepared(*old(self), *final(self), r),
    {
        let args = trim(args.as_str());
        let args = if args.as_str().is_empty() {
            "--help".to_owned()
        } else {
            args
        };
        self.exec(Registry::command_line("install", args.as_str()))
    }

    /// How a pass-through command is prepared: where the default mirror is
    /// active nothing is switched and nothing is to be restored; else the
    /// default mirror is selected and the mirror that was active is to be
    /// restored.
    pub open spec fn prepared(before: Registry, after: Registry, r: Result<Passthrough, Error>) -> bool {
        match active(before.config()@) {
            Err(e) => r matches Err(x) && x@ == e && after.config()@ == before.config()@,
            Ok(n) => if n == RUST_LANG@ {
                &&& r matches Ok(p)
                &&& p.restore is None
                &&& after.config()@ == before.config()@
            } else {
                match selection(before.catalog(), before.config()@, RUST_LANG@) {
                    Ok(t) => {
                        &&& r matches Ok(p)
                        &&& opt_text(p.restore) == Some(n)
                        &&& after.config()@ == t
                    },
                    Err(e) => r matches Err(x) && x@ == e && after.config()@ == before.config()@,
                }
            },
        }
    }
}

} // verus!
