//! The catalog of mirrors: a built-in set that never changes and a set of the
//! user's own, which shadows it and is kept in the catalog file.
//!
//! Each set is a list of entries, strictly ascending by name, so that a name
//! occurs at most once in it and a listing comes out sorted.

use crate::constants::{CRMRC_FILE, DL, REGISTRY, RUST_LANG, SOURCE};
use crate::description::{DescriptionView, RegistryDescription};
use crate::error::{Error, ErrorView, Operation};
use crate::text::{
    lemma_name_lt_connected, lemma_name_lt_irreflexive, lemma_name_lt_transitive, name_lt,
    push_char, str_eq, str_lt, trim_end, trimmed, trimmed_end,
};
use crate::toml::{
    entry, get_table, get_table_mut, get_text, has_slot, item_as_table, lemma_set_after_put,
    lemma_slot_after_put, parsed_document, put, put_slot, subtable, table_get, table_item,
    table_keys, table_layout, table_nodes, text_at, text_item, Layout, Node, Slots, Toml, Tree,
};
use crate::utils::{append_end_spaces, padded, prefix_of, status_prefix, NAME_COLUMN};
use vstd::prelude::*;
use vstd::string::StringExecFns;

verus! {

/// A set of mirrors as a list of names with their descriptions.
pub type Entries = Seq<(Seq<char>, DescriptionView)>;

/// The names and descriptions that a list of entries holds.
pub open spec fn entries_view(v: Seq<(String, RegistryDescription)>) -> Entries {
    v.map_values(|e: (String, RegistryDescription)| (e.0@, e.1@))
}

/// The list ascends strictly by name.
pub open spec fn sorted(s: Entries) -> bool {
    forall|i: int, j: int| 0 <= i < j < s.len() ==> name_lt(#[trigger] s[i].0, #[trigger] s[j].0)
}

/// The list holds an entry of that name.
pub open spec fn has_name(s: Entries, name: Seq<char>) -> bool {
    exists|i: int| 0 <= i < s.len() && #[trigger] s[i].0 == name
}

/// The description that the list holds under that name, if any.
pub open spec fn lookup(s: Entries, name: Seq<char>) -> Option<DescriptionView> {
    if has_name(s, name) {
        Some(s[choose|i: int| 0 <= i < s.len() && #[trigger] s[i].0 == name].1)
    } else {
        None
    }
}

/// The description behind an optional reference.
pub open spec fn opt_desc(d: Option<&RegistryDescription>) -> Option<DescriptionView> {
    match d {
        Some(d) => Some(d@),
        None => None,
    }
}

/// In a sorted list, the entry at each position is the one that a lookup of
/// its name finds.
pub proof fn lemma_lookup_at(s: Entries, i: int)
    requires
        sorted(s),
        0 <= i < s.len(),
    ensures
        lookup(s, s[i].0) == Some(s[i].1),
{
    let name = s[i].0;
    assert(has_name(s, name));
    let j = choose|j: int| 0 <= j < s.len() && #[trigger] s[j].0 == name;
    lemma_name_lt_irreflexive(name);
    if j < i {
        assert(name_lt(s[j].0, s[i].0));
    } else if i < j {
        assert(name_lt(s[i].0, s[j].0));
    }
}

/// Without its first entry a sorted list is sorted, and finds what the list
/// finds under every name but the first.
proof fn lemma_drop_first(s: Entries, k: Seq<char>)
    requires
        sorted(s),
        s.len() > 0,
    ensures
        sorted(s.drop_first()),
        lookup(s.drop_first(), k) == (if k == s[0].0 {
            None
        } else {
            lookup(s, k)
        }),
{
    let t = s.drop_first();
    assert(sorted(t)) by {
        assert forall|i: int, j: int| 0 <= i < j < t.len() implies name_lt(
            #[trigger] t[i].0,
            #[trigger] t[j].0,
        ) by {
            assert(t[i] == s[i + 1] && t[j] == s[j + 1]);
        }
    }
    if has_name(t, k) {
        let j = choose|j: int| 0 <= j < t.len() && #[trigger] t[j].0 == k;
        assert(t[j] == s[j + 1]);
        lemma_lookup_at(t, j);
        lemma_lookup_at(s, j + 1);
        assert(name_lt(s[0].0, s[j + 1].0));
        lemma_name_lt_irreflexive(k);
    } else if k != s[0].0 && has_name(s, k) {
        let j = choose|j: int| 0 <= j < s.len() && #[trigger] s[j].0 == k;
        assert(t[j - 1] == s[j]);
        assert(t[j - 1].0 == k);
    }
}

/// A sorted list is known by what it finds: two sorted lists that find the
/// same under every name are the same list.
pub proof fn lemma_sorted_unique(a: Entries, b: Entries)
    requires
        sorted(a),
        sorted(b),
        forall|k: Seq<char>| lookup(a, k) == lookup(b, k),
    ensures
        a == b,
    decreases a.len(),
{
    if a.len() == 0 {
        if b.len() > 0 {
            lemma_lookup_at(b, 0);
            assert(lookup(a, b[0].0) is None);
        }
        assert(a =~= b);
    } else {
        lemma_lookup_at(a, 0);
        assert(has_name(b, a[0].0));
        let j = choose|j: int| 0 <= j < b.len() && #[trigger] b[j].0 == a[0].0;
        lemma_lookup_at(b, j);
        lemma_lookup_at(b, 0);
        assert(has_name(a, b[0].0));
        let i = choose|i: int| 0 <= i < a.len() && #[trigger] a[i].0 == b[0].0;
        if j > 0 {
            // the first name of `b` stands before the first of `a`, yet is in `a`
            assert(name_lt(b[0].0, b[j].0));
            lemma_name_lt_irreflexive(a[0].0);
            if i > 0 {
                assert(name_lt(a[0].0, a[i].0));
                lemma_name_lt_transitive(a[0].0, b[0].0, a[0].0);
            }
        }
        assert(j == 0);
        assert(a[0] == b[0]);
        assert forall|k: Seq<char>| lookup(a.drop_first(), k) == lookup(b.drop_first(), k) by {
            lemma_drop_first(a, k);
            lemma_drop_first(b, k);
        }
        lemma_drop_first(a, a[0].0);
        lemma_drop_first(b, b[0].0);
        lemma_sorted_unique(a.drop_first(), b.drop_first());
        assert(a =~= seq![a[0]] + a.drop_first());
        assert(b =~= seq![b[0]] + b.drop_first());
    }
}

/// A prefix of a sorted list is sorted, and finds what the list finds among
/// its own names.
proof fn lemma_take(s: Entries, n: int, k: Seq<char>)
    requires
        sorted(s),
        0 <= n <= s.len(),
    ensures
        sorted(s.take(n)),
        has_name(s.take(n), k) ==> lookup(s.take(n), k) == lookup(s, k),
        n < s.len() ==> (has_name(s.take(n + 1), k) <==> has_name(s.take(n), k) || k == s[n].0),
{
    let t = s.take(n);
    assert(sorted(t)) by {
        assert forall|i: int, j: int| 0 <= i < j < t.len() implies name_lt(
            #[trigger] t[i].0,
            #[trigger] t[j].0,
        ) by {
            assert(t[i] == s[i] && t[j] == s[j]);
        }
    }
    if has_name(t, k) {
        let j = choose|j: int| 0 <= j < t.len() && #[trigger] t[j].0 == k;
        assert(t[j] == s[j]);
        lemma_lookup_at(t, j);
        lemma_lookup_at(s, j);
    }
    if n < s.len() {
        let u = s.take(n + 1);
        if has_name(u, k) {
            let j = choose|j: int| 0 <= j < u.len() && #[trigger] u[j].0 == k;
            assert(u[j] == s[j]);
            if j < n {
                assert(t[j] == s[j]);
            }
        }
        if has_name(t, k) {
            let j = choose|j: int| 0 <= j < t.len() && #[trigger] t[j].0 == k;
            assert(u[j] == t[j]);
        }
        if k == s[n].0 {
            assert(u[n] == s[n]);
        }
    }
}

/// The position of the entry called `name`, if the list has one.
fn position(v: &Vec<(String, RegistryDescription)>, name: &str) -> (r: Option<usize>)
    ensures
        match r {
            Some(i) => i < v.len() && v@[i as int].0@ == name@,
            None => !has_name(entries_view(v@), name@),
        },
{
    let mut i: usize = 0;
    while i < v.len()
        invariant
            i <= v.len(),
            forall|j: int| 0 <= j < i ==> v@[j].0@ != name@,
        decreases v.len() - i,
    {
        if str_eq(v[i].0.as_str(), name) {
            return Some(i);
        }
        i = i + 1;
    }
    assert(!has_name(entries_view(v@), name@)) by {
        let s = entries_view(v@);
        assert forall|j: int| 0 <= j < s.len() implies #[trigger] s[j].0 != name@ by {
            assert(s[j].0 == v@[j].0@);
        }
    }
    None
}

/// The description that the list holds under `name`, if any.
fn find<'a>(v: &'a Vec<(String, RegistryDescription)>, name: &str) -> (r: Option<
    &'a RegistryDescription,
>)
    requires
        sorted(entries_view(v@)),
    ensures
        opt_desc(r) == lookup(entries_view(v@), name@),
{
    match position(v, name) {
        Some(i) => {
            proof {
                lemma_lookup_at(entries_view(v@), i as int);
            }
            Some(&v[i].1)
        },
        None => None,
    }
}

/// Binds `name` to `d` in the list, in the place that keeps it sorted.
fn upsert(v: &mut Vec<(String, RegistryDescription)>, name: String, d: RegistryDescription)
    requires
        sorted(entries_view(old(v)@)),
    ensures
        sorted(entries_view(final(v)@)),
        forall|k: Seq<char>|
            lookup(entries_view(final(v)@), k) == (if k == name@ {
                Some(d@)
            } else {
                lookup(entries_view(old(v)@), k)
            }),
{
    let ghost before = entries_view(v@);
    let ghost key = name@;
    let ghost val = d@;
    let mut i: usize = 0;
    while i < v.len() && str_lt(v[i].0.as_str(), name.as_str())
        invariant
            i <= v.len(),
            v@ == old(v)@,
            before == entries_view(v@),
            key == name@,
            forall|j: int| 0 <= j < i ==> name_lt(before[j].0, key),
        decreases v.len() - i,
    {
        assert(before[i as int].0 == v@[i as int].0@);
        i = i + 1;
    }
    let replace = i < v.len() && str_eq(v[i].0.as_str(), name.as_str());
    if replace {
        v.set(i, (name, d));
    } else {
        v.insert(i, (name, d));
    }
    let ghost after = entries_view(v@);
    proof {
        let at = i as int;
        assert(after[at] == (key, val));
        if replace {
            assert(before[at].0 == key);
            assert(after =~= before.update(at, (key, val)));
            assert forall|a: int, b: int| 0 <= a < b < after.len() implies name_lt(
                #[trigger] after[a].0,
                #[trigger] after[b].0,
            ) by {
                assert(after[a].0 == before[a].0 && after[b].0 == before[b].0);
            }
        } else {
            assert(after =~= before.insert(at, (key, val)));
            if at < before.len() {
                assert(before[at].0 == old(v)@[at].0@);
                assert(!name_lt(before[at].0, key));
                if !name_lt(key, before[at].0) {
                    lemma_name_lt_connected(key, before[at].0);
                }
            }
            assert forall|a: int, b: int| 0 <= a < b < after.len() implies name_lt(
                #[trigger] after[a].0,
                #[trigger] after[b].0,
            ) by {
                if b < at {
                    assert(after[a] == before[a] && after[b] == before[b]);
                } else if b == at {
                    assert(after[a] == before[a]);
                } else if a == at {
                    assert(after[b] == before[b - 1]);
                    if b - 1 > at {
                        assert(name_lt(before[at].0, before[b - 1].0));
                        lemma_name_lt_transitive(key, before[at].0, before[b - 1].0);
                    }
                } else if a < at {
                    assert(after[a] == before[a] && after[b] == before[b - 1]);
                } else {
                    assert(after[a] == before[a - 1] && after[b] == before[b - 1]);
                }
            }
        }
        assert forall|k: Seq<char>|
            lookup(after, k) == (if k == key {
                Some(val)
            } else {
                lookup(before, k)
            }) by {
            if k == key {
                lemma_lookup_at(after, at);
            } else if has_name(before, k) {
                let j = choose|j: int| 0 <= j < before.len() && #[trigger] before[j].0 == k;
                lemma_lookup_at(before, j);
                let j2 = if replace || j < at {
                    j
                } else {
                    j + 1
                };
                assert(after[j2] == before[j]);
                lemma_lookup_at(after, j2);
            } else if has_name(after, k) {
                let j = choose|j: int| 0 <= j < after.len() && #[trigger] after[j].0 == k;
                let j0 = if replace || j < at {
                    j
                } else {
                    j - 1
                };
                assert(before[j0] == after[j]);
                assert(before[j0].0 == k);
            }
        }
    }
}

/// Unbinds `name` in the list.
fn delete(v: &mut Vec<(String, RegistryDescription)>, name: &str)
    requires
        sorted(entries_view(old(v)@)),
    ensures
        sorted(entries_view(final(v)@)),
        forall|k: Seq<char>|
            lookup(entries_view(final(v)@), k) == (if k == name@ {
                None
            } else {
                lookup(entries_view(old(v)@), k)
            }),
{
    let ghost before = entries_view(v@);
    match position(v, name) {
        None => {},
        Some(i) => {
            let _gone = v.remove(i);
            let ghost after = entries_view(v@);
            proof {
                let at = i as int;
                assert(before[at].0 == name@);
                assert(after =~= before.remove(at));
                assert forall|a: int, b: int| 0 <= a < b < after.len() implies name_lt(
                    #[trigger] after[a].0,
                    #[trigger] after[b].0,
                ) by {
                    let a0 = if a < at {
                        a
                    } else {
                        a + 1
                    };
                    let b0 = if b < at {
                        b
                    } else {
                        b + 1
                    };
                    assert(after[a] == before[a0] && after[b] == before[b0]);
                }
                lemma_name_lt_irreflexive(name@);
                assert forall|k: Seq<char>|
                    lookup(after, k) == (if k == name@ {
                        None
                    } else {
                        lookup(before, k)
                    }) by {
                    if has_name(after, k) {
                        let j = choose|j: int| 0 <= j < after.len() && #[trigger] after[j].0 == k;
                        let j0 = if j < at {
                            j
                        } else {
                            j + 1
                        };
                        assert(after[j] == before[j0]);
                        lemma_lookup_at(after, j);
                        lemma_lookup_at(before, j0);
                        if j0 < at {
                            assert(name_lt(before[j0].0, before[at].0));
                        } else {
                            assert(name_lt(before[at].0, before[j0].0));
                        }
                    } else if k != name@ && has_name(before, k) {
                        let j = choose|j: int|
                            0 <= j < before.len() && #[trigger] before[j].0 == k;
                        let j2 = if j < at {
                            j
                        } else {
                            j - 1
                        };
                        assert(after[j2] == before[j]);
                        assert(after[j2].0 == k);
                    }
                }
            }
        },
    }
}

/// The description that two sets give for a name: the user's, else the
/// built-in one.
pub open spec fn preferred(builtin: Entries, user: Entries, name: Seq<char>) -> Option<
    DescriptionView,
> {
    match lookup(user, name) {
        Some(d) => Some(d),
        None => lookup(builtin, name),
    }
}

/// The two sets as one list: every name of either once, ascending, with the
/// user's entry where both hold the name.
pub open spec fn merged(builtin: Entries, user: Entries) -> Entries
    decreases builtin.len() + user.len(),
{
    if builtin.len() == 0 {
        user
    } else if user.len() == 0 {
        builtin
    } else if name_lt(builtin[0].0, user[0].0) {
        seq![builtin[0]] + merged(builtin.drop_first(), user)
    } else if name_lt(user[0].0, builtin[0].0) {
        seq![user[0]] + merged(builtin, user.drop_first())
    } else {
        seq![user[0]] + merged(builtin.drop_first(), user.drop_first())
    }
}

/// A list with an entry in front holds the names of the list and that of the
/// entry.
proof fn lemma_has_name_cons(h: (Seq<char>, DescriptionView), rest: Entries, k: Seq<char>)
    ensures
        has_name(seq![h] + rest, k) <==> h.0 == k || has_name(rest, k),
{
    let m = seq![h] + rest;
    if has_name(m, k) {
        let i = choose|i: int| 0 <= i < m.len() && #[trigger] m[i].0 == k;
        if i > 0 {
            assert(rest[i - 1] == m[i]);
            assert(rest[i - 1].0 == k);
        }
    }
    if h.0 == k {
        assert(m[0].0 == k);
    }
    if has_name(rest, k) {
        let i = choose|i: int| 0 <= i < rest.len() && #[trigger] rest[i].0 == k;
        assert(m[i + 1] == rest[i]);
        assert(m[i + 1].0 == k);
    }
}

/// A list holds its first name and those of the rest.
proof fn lemma_has_name_first(s: Entries, k: Seq<char>)
    requires
        s.len() > 0,
    ensures
        has_name(s, k) <==> s[0].0 == k || has_name(s.drop_first(), k),
{
    assert(s =~= seq![s[0]] + s.drop_first());
    lemma_has_name_cons(s[0], s.drop_first(), k);
}

/// The merged list holds the names of both sets and no others.
pub proof fn lemma_merged_names(builtin: Entries, user: Entries, k: Seq<char>)
    ensures
        has_name(merged(builtin, user), k) <==> has_name(builtin, k) || has_name(user, k),
    decreases builtin.len() + user.len(),
{
    if builtin.len() == 0 {
        assert(!has_name(builtin, k));
    } else if user.len() == 0 {
        assert(!has_name(user, k));
    } else {
        lemma_has_name_first(builtin, k);
        lemma_has_name_first(user, k);
        if name_lt(builtin[0].0, user[0].0) {
            lemma_merged_names(builtin.drop_first(), user, k);
            lemma_has_name_cons(builtin[0], merged(builtin.drop_first(), user), k);
        } else if name_lt(user[0].0, builtin[0].0) {
            lemma_merged_names(builtin, user.drop_first(), k);
            lemma_has_name_cons(user[0], merged(builtin, user.drop_first()), k);
        } else {
            lemma_name_lt_connected(builtin[0].0, user[0].0);
            lemma_merged_names(builtin.drop_first(), user.drop_first(), k);
            lemma_has_name_cons(user[0], merged(builtin.drop_first(), user.drop_first()), k);
        }
    }
}

/// An entry whose name stands before every name of a sorted list makes a
/// sorted list in front of it.
proof fn lemma_sorted_cons(h: (Seq<char>, DescriptionView), rest: Entries)
    requires
        sorted(rest),
        forall|k: Seq<char>| has_name(rest, k) ==> name_lt(h.0, k),
    ensures
        sorted(seq![h] + rest),
{
    let m = seq![h] + rest;
    assert forall|i: int, j: int| 0 <= i < j < m.len() implies name_lt(
        #[trigger] m[i].0,
        #[trigger] m[j].0,
    ) by {
        assert(m[j] == rest[j - 1]);
        if i == 0 {
            assert(has_name(rest, rest[j - 1].0));
        } else {
            assert(m[i] == rest[i - 1]);
        }
    }
}

/// The first name of a sorted list stands before every other of its names.
proof fn lemma_first_is_least(s: Entries, k: Seq<char>)
    requires
        sorted(s),
        s.len() > 0,
        has_name(s.drop_first(), k),
    ensures
        name_lt(s[0].0, k),
{
    let t = s.drop_first();
    let i = choose|i: int| 0 <= i < t.len() && #[trigger] t[i].0 == k;
    assert(t[i] == s[i + 1]);
    assert(name_lt(s[0].0, s[i + 1].0));
}

/// What a sorted list with an entry in front finds: that entry under its
/// name, and under every other name what the rest finds.
proof fn lemma_lookup_cons(h: (Seq<char>, DescriptionView), rest: Entries, k: Seq<char>)
    requires
        sorted(seq![h] + rest),
    ensures
        lookup(seq![h] + rest, k) == (if k == h.0 {
            Some(h.1)
        } else {
            lookup(rest, k)
        }),
{
    let m = seq![h] + rest;
    assert(m.drop_first() =~= rest);
    lemma_drop_first(m, k);
    lemma_lookup_at(m, 0);
}

/// A sorted list holds no name that stands before its first.
proof fn lemma_below_first(s: Entries, k: Seq<char>)
    requires
        sorted(s),
        s.len() > 0,
        name_lt(k, s[0].0),
    ensures
        !has_name(s, k),
{
    if has_name(s, k) {
        let i = choose|i: int| 0 <= i < s.len() && #[trigger] s[i].0 == k;
        lemma_name_lt_irreflexive(k);
        if i > 0 {
            assert(name_lt(s[0].0, s[i].0));
            lemma_name_lt_transitive(k, s[0].0, k);
        }
    }
}

/// The merged list of two sorted sets is sorted.
proof fn lemma_merged_sorted(builtin: Entries, user: Entries)
    requires
        sorted(builtin),
        sorted(user),
    ensures
        sorted(merged(builtin, user)),
    decreases builtin.len() + user.len(),
{
    if builtin.len() > 0 && user.len() > 0 {
        let b0 = builtin[0];
        let u0 = user[0];
        let bt = builtin.drop_first();
        let ut = user.drop_first();
        lemma_drop_first(builtin, b0.0);
        lemma_drop_first(user, u0.0);
        if name_lt(b0.0, u0.0) {
            let rest = merged(bt, user);
            lemma_merged_sorted(bt, user);
            assert forall|k: Seq<char>| has_name(rest, k) implies name_lt(b0.0, k) by {
                lemma_merged_names(bt, user, k);
                if has_name(bt, k) {
                    lemma_first_is_least(builtin, k);
                } else {
                    lemma_has_name_first(user, k);
                    if k != u0.0 {
                        lemma_first_is_least(user, k);
                        lemma_name_lt_transitive(b0.0, u0.0, k);
                    }
                }
            }
            lemma_sorted_cons(b0, rest);
        } else if name_lt(u0.0, b0.0) {
            let rest = merged(builtin, ut);
            lemma_merged_sorted(builtin, ut);
            assert forall|k: Seq<char>| has_name(rest, k) implies name_lt(u0.0, k) by {
                lemma_merged_names(builtin, ut, k);
                if has_name(ut, k) {
                    lemma_first_is_least(user, k);
                } else {
                    lemma_has_name_first(builtin, k);
                    if k != b0.0 {
                        lemma_first_is_least(builtin, k);
                        lemma_name_lt_transitive(u0.0, b0.0, k);
                    }
                }
            }
            lemma_sorted_cons(u0, rest);
        } else {
            lemma_name_lt_connected(b0.0, u0.0);
            let rest = merged(bt, ut);
            lemma_merged_sorted(bt, ut);
            assert forall|k: Seq<char>| has_name(rest, k) implies name_lt(u0.0, k) by {
                lemma_merged_names(bt, ut, k);
                if has_name(ut, k) {
                    lemma_first_is_least(user, k);
                } else {
                    lemma_first_is_least(builtin, k);
                }
            }
            lemma_sorted_cons(u0, rest);
        }
    }
}

/// The merged list gives for a name what the catalog gives: the user's
/// description, else the built-in one.
proof fn lemma_merged_lookup(builtin: Entries, user: Entries, k: Seq<char>)
    requires
        sorted(builtin),
        sorted(user),
    ensures
        lookup(merged(builtin, user), k) == preferred(builtin, user, k),
    decreases builtin.len() + user.len(),
{
    if builtin.len() == 0 {
        assert(!has_name(builtin, k));
    } else if user.len() == 0 {
        assert(!has_name(user, k));
    } else {
        let b0 = builtin[0];
        let u0 = user[0];
        let bt = builtin.drop_first();
        let ut = user.drop_first();
        lemma_merged_sorted(builtin, user);
        lemma_drop_first(builtin, k);
        lemma_drop_first(user, k);
        lemma_lookup_at(builtin, 0);
        lemma_lookup_at(user, 0);
        if name_lt(b0.0, u0.0) {
            lemma_merged_lookup(bt, user, k);
            lemma_lookup_cons(b0, merged(bt, user), k);
            if k == b0.0 {
                lemma_below_first(user, k);
            }
        } else if name_lt(u0.0, b0.0) {
            lemma_merged_lookup(builtin, ut, k);
            lemma_lookup_cons(u0, merged(builtin, ut), k);
        } else {
            lemma_name_lt_connected(b0.0, u0.0);
            lemma_merged_lookup(bt, ut, k);
            lemma_lookup_cons(u0, merged(bt, ut), k);
        }
    }
}

/// The merged list of two sorted sets is sorted, so that it holds each name
/// once, and gives for each name what the catalog gives: the user's
/// description, else the built-in one.
pub proof fn lemma_merged(builtin: Entries, user: Entries)
    requires
        sorted(builtin),
        sorted(user),
    ensures
        sorted(merged(builtin, user)),
        forall|k: Seq<char>| lookup(merged(builtin, user), k) == preferred(builtin, user, k),
{
    lemma_merged_sorted(builtin, user);
    assert forall|k: Seq<char>| lookup(merged(builtin, user), k) == preferred(
        builtin,
        user,
        k,
    ) by {
        lemma_merged_lookup(builtin, user, k);
    }
}

/// The table that stands for a sorted list and one more entry is the table
/// for the list with that entry put in.
proof fn lemma_catalog_table_push(user: Entries, i: int)
    requires
        sorted(user),
        0 <= i < user.len(),
    ensures
        catalog_table(user.take(i + 1)) == catalog_table(user.take(i)).insert(
            user[i].0,
            entry_table(user[i].1),
        ),
{
    let before = catalog_table(user.take(i));
    let next = catalog_table(user.take(i + 1));
    let k = user[i].0;
    assert forall|x: Seq<char>| #[trigger]
        next.contains_key(x) <==> (before.contains_key(x) || x == k) by {
        lemma_take(user, i, x);
    }
    assert forall|x: Seq<char>| #[trigger] next.contains_key(x) implies next[x] == before.insert(
        k,
        entry_table(user[i].1),
    )[x] by {
        lemma_take(user, i, x);
        lemma_take(user, i + 1, x);
        if x == k {
            assert(user.take(i + 1)[i] == user[i]);
            lemma_lookup_at(user.take(i + 1), i);
        }
    }
    assert(next =~= before.insert(k, entry_table(user[i].1)));
}

/// Why the mirror `name` cannot be removed, if it cannot: the default mirror
/// and the built-in mirrors are protected, and a mirror that the user has
/// not defined is not found.
pub open spec fn removal_fault(catalog: CatalogView, name: Seq<char>) -> Option<ErrorView> {
    if name == RUST_LANG@ || lookup(catalog.builtin, name) is Some {
        Some(ErrorView::BuiltinProtected)
    } else if lookup(catalog.user, name) is None {
        Some(ErrorView::MirrorNotFound { name, operation: Operation::Remove })
    } else {
        None
    }
}

/// The default mirror can never be removed, whatever the catalog holds.
pub proof fn lemma_remove_default_protected(catalog: CatalogView)
    ensures
        removal_fault(catalog, RUST_LANG@) == Some(ErrorView::BuiltinProtected),
{
}

/// A mirror that the built-in set holds cannot be removed, whether the user
/// shadows it or not; another mirror that the user's set does not hold is
/// not found.
pub proof fn lemma_remove_faults(catalog: CatalogView, name: Seq<char>)
    ensures
        lookup(catalog.builtin, name) is Some ==> removal_fault(catalog, name) == Some(
            ErrorView::BuiltinProtected,
        ),
        name != RUST_LANG@ && lookup(catalog.builtin, name) is None && lookup(catalog.user, name)
            is None ==> removal_fault(catalog, name) == Some(
            ErrorView::MirrorNotFound { name, operation: Operation::Remove },
        ),
{
}

/// The layout of an entry of a catalog document: `registry`, then `dl`.
pub open spec fn entry_layout() -> Layout {
    Layout::Table(seq![(REGISTRY@, Layout::Leaf), (DL@, Layout::Leaf)])
}

/// The layout of the `source` table that is written for a list of entries:
/// one table per entry, in the order of the list.
pub open spec fn catalog_layout(s: Entries) -> Slots {
    s.map_values(|e: (Seq<char>, DescriptionView)| (e.0, entry_layout()))
}

/// The `source` table of a catalog document: empty where the document has
/// none, and a failure where `source` is something else than a table.
pub open spec fn catalog_source(root: Tree) -> Result<Tree, ErrorView> {
    match entry(root, SOURCE@) {
        None => Ok(Map::empty()),
        Some(Node::Table(t)) => Ok(t),
        Some(_) => Err(ErrorView::CatalogSourceNotTable),
    }
}

/// A catalog document with an empty `source` where it has none.
pub open spec fn with_source(root: Tree) -> Tree {
    if root.contains_key(SOURCE@) {
        root
    } else {
        root.insert(SOURCE@, Node::Table(Map::empty()))
    }
}

/// The description that an entry of a catalog document gives: the strings
/// under `registry` and `dl` of a table.
pub open spec fn entry_of(n: Node) -> Option<DescriptionView> {
    match n {
        Node::Table(t) => match (text_at(t, REGISTRY@), text_at(t, DL@)) {
            (Some(registry), Some(dl)) => Some(DescriptionView { registry, dl }),
            _ => None,
        },
        _ => None,
    }
}

/// What is wrong with the entry `name` of a catalog document, if anything.
pub open spec fn entry_fault(name: Seq<char>, n: Node) -> Option<ErrorView> {
    match n {
        Node::Table(_) => if entry_of(n) is None {
            Some(ErrorView::CatalogMissingField { name })
        } else {
            None
        },
        _ => Some(ErrorView::CatalogEntryNotTable { name }),
    }
}

/// `e` is what is wrong with one of the entries of `source`.
pub open spec fn fault_in(source: Tree, e: ErrorView) -> bool {
    exists|k: Seq<char>| #[trigger] source.contains_key(k) && entry_fault(k, source[k]) == Some(e)
}

/// Nothing is wrong with any entry of `source`.
pub open spec fn faultless(source: Tree) -> bool {
    forall|k: Seq<char>| #[trigger] source.contains_key(k) ==> entry_fault(k, source[k]) is None
}

/// The list holds exactly the entries of `source`.
pub open spec fn holds(s: Entries, source: Tree) -> bool {
    forall|k: Seq<char>|
        #[trigger] lookup(s, k) == (if source.contains_key(k) {
            entry_of(source[k])
        } else {
            None
        })
}

/// The table that stands for a description in a catalog document.
pub open spec fn entry_table(d: DescriptionView) -> Node {
    Node::Table(
        Map::<Seq<char>, Node>::empty().insert(REGISTRY@, Node::Text(d.registry)).insert(
            DL@,
            Node::Text(d.dl),
        ),
    )
}

/// The `source` table that stands for a list of entries.
pub open spec fn catalog_table(s: Entries) -> Tree {
    Map::new(|k: Seq<char>| has_name(s, k), |k: Seq<char>| entry_table(lookup(s, k)->0))
}

/// The two keys of a catalog entry are different texts.
pub proof fn lemma_entry_keys()
    ensures
        REGISTRY@ != DL@,
{
    reveal_strlit("registry");
    reveal_strlit("dl");
    assert(REGISTRY@.len() == 8);
    assert(DL@.len() == 2);
}

/// Reading back the `source` table that was written for a list of entries
/// gives the same entries: nothing is wrong with any of them, and each name
/// has its description.
pub proof fn lemma_catalog_round_trip(s: Entries)
    requires
        sorted(s),
    ensures
        faultless(catalog_table(s)),
        holds(s, catalog_table(s)),
{
    lemma_entry_keys();
    let t = catalog_table(s);
    assert forall|k: Seq<char>| #[trigger] t.contains_key(k) implies entry_fault(k, t[k])
        is None && entry_of(t[k]) == lookup(s, k) by {
        let d = lookup(s, k)->0;
        let m = entry_table(d)->Table_0;
        assert(text_at(m, REGISTRY@) == Some(d.registry));
        assert(text_at(m, DL@) == Some(d.dl));
    }
}

/// A catalog that is opened from the document that was written for a sorted
/// list of the user's mirrors holds that list again.
pub proof fn lemma_written_catalog_reopens(
    user: Entries,
    document: Tree,
    builtin: Option<Tree>,
    reopened: RuntimeConfig,
)
    requires
        sorted(user),
        opened(
            Some(document.insert(SOURCE@, Node::Table(catalog_table(user)))),
            builtin,
            Ok(reopened),
        ),
    ensures
        reopened@.user == user,
{
    lemma_catalog_round_trip(user);
    lemma_sorted_unique(reopened@.user, user);
}

/// The mirrors of `s` to record under `registries`: every entry but the
/// default mirror's and the excluded one, each with its index address.
pub open spec fn tuples(s: Entries, exclude: Option<Seq<char>>) -> Seq<(Seq<char>, Seq<char>)> {
    s.filter(|e: (Seq<char>, DescriptionView)| e.0 != RUST_LANG@ && Some(e.0) != exclude).map_values(
        |e: (Seq<char>, DescriptionView)| (e.0, e.1.registry),
    )
}

/// One line of the listing.
pub open spec fn listing_line(
    e: (Seq<char>, DescriptionView),
    current: Seq<char>,
    sep: Seq<char>,
) -> Seq<char> {
    prefix_of(e.0, current) + padded(e.0, NAME_COLUMN as nat) + sep + e.1.registry + seq!['\n']
}

/// The lines of the listing, one after the other.
pub open spec fn listing(s: Entries, current: Seq<char>, sep: Seq<char>) -> Seq<char>
    decreases s.len(),
{
    if s.len() == 0 {
        Seq::empty()
    } else {
        listing(s.drop_last(), current, sep) + listing_line(s.last(), current, sep)
    }
}

/// The names of the list as bullet points, one per line.
pub open spec fn key_lines(s: Entries) -> Seq<char>
    decreases s.len(),
{
    if s.len() == 0 {
        Seq::empty()
    } else if s.len() == 1 {
        "  - "@ + s[0].0
    } else {
        key_lines(s.drop_last()) + seq!['\n'] + "  - "@ + s.last().0
    }
}

/// The separator of the listing: the one given, or none.
pub open spec fn opt_sep(sep: Option<&str>) -> Seq<char> {
    match sep {
        Some(s) => s@,
        None => Seq::empty(),
    }
}

/// The text of an optional string slice.
pub open spec fn opt_str(s: Option<&str>) -> Option<Seq<char>> {
    match s {
        Some(s) => Some(s@),
        None => None,
    }
}

/// The names of a list of strings.
pub open spec fn names_view(v: Seq<String>) -> Seq<Seq<char>> {
    v.map_values(|s: String| s@)
}

/// The names and descriptions behind a list of references.
pub open spec fn refs_view(v: Seq<(&String, &RegistryDescription)>) -> Entries {
    v.map_values(|e: (&String, &RegistryDescription)| (e.0@, e.1@))
}

/// What the catalog holds.
pub struct CatalogView {
    /// The built-in mirrors.
    pub builtin: Entries,
    /// The user's mirrors.
    pub user: Entries,
    /// The catalog document as it was loaded or last written.
    pub document: Tree,
}

/// The catalog of mirrors.
#[derive(Debug)]
pub struct RuntimeConfig {
    /// The catalog document.
    config: Toml,
    /// The user's mirrors.
    extend: Vec<(String, RegistryDescription)>,
    /// The built-in mirrors.
    default: Vec<(String, RegistryDescription)>,
}

impl View for RuntimeConfig {
    type V = CatalogView;

    closed spec fn view(&self) -> CatalogView {
        CatalogView {
            builtin: entries_view(self.default@),
            user: entries_view(self.extend@),
            document: self.config.nodes(),
        }
    }
}

/// What opening a catalog gives, from what the two texts parse to.
///
/// The failures come in this order: the user's text is no document; its
/// `source` is no table; the built-in text is no document; its `source` is no
/// table; something is wrong with an entry of the user's; something is wrong
/// with a built-in entry. Otherwise the catalog holds the entries of both.
pub open spec fn opened(user: Option<Tree>, builtin: Option<Tree>, r: Result<RuntimeConfig, Error>) -> bool {
    match user {
        None => r matches Err(e) && e@ == ErrorView::CatalogParse,
        Some(u) => match catalog_source(u) {
            Err(e0) => r matches Err(e) && e@ == e0,
            Ok(us) => match builtin {
                None => r matches Err(e) && e@ == ErrorView::CatalogParse,
                Some(b) => match catalog_source(b) {
                    Err(e0) => r matches Err(e) && e@ == e0,
                    Ok(bs) => if !faultless(us) {
                        r matches Err(e) && fault_in(us, e@)
                    } else if !faultless(bs) {
                        r matches Err(e) && fault_in(bs, e@)
                    } else {
                        &&& r matches Ok(c)
                        &&& c.wf()
                        &&& holds(c@.user, us)
                        &&& holds(c@.builtin, bs)
                        &&& c@.document == with_source(u)
                    },
                },
            },
        },
    }
}

impl RuntimeConfig {
    /// The catalog document is as a parsed document is: its root is a
    /// table.
    pub closed spec fn intact(&self) -> bool {
        self.config.wf()
    }

    /// The catalog document is intact and both sets are sorted by name.
    pub open spec fn wf(&self) -> bool {
        self.intact() && sorted(self@.builtin) && sorted(self@.user)
    }

    /// The text that the catalog document renders to, before trimming.
    pub closed spec fn text(&self) -> Seq<char> {
        self.config.text()
    }

    /// The top-level keys of the catalog document in their order, each with
    /// the layout under it.
    pub closed spec fn layout(&self) -> Slots {
        self.config.layout()
    }

    /// The description that the catalog gives for a name: the user's, else
    /// the built-in one.
    pub open spec fn description(&self, name: Seq<char>) -> Option<DescriptionView> {
        preferred(self@.builtin, self@.user, name)
    }

    /// All mirrors as one list: every name once, ascending, with the user's
    /// entry where it shadows a built-in one.
    pub open spec fn all(&self) -> Entries {
        merged(self@.builtin, self@.user)
    }

    /// Opens the catalog from the text of the catalog file, with the embedded
    /// built-in mirrors; the text of a missing file is empty.
    pub fn new(user_text: &str) -> (r: Result<RuntimeConfig, Error>)
        ensures
            opened(parsed_document(user_text@), parsed_document(CRMRC_FILE@), r),
    {
        let extend = match RuntimeConfig::parse(user_text) {
            Ok(t) => t,
            Err(e) => {
                return Err(e);
            },
        };
        let default = match RuntimeConfig::parse(CRMRC_FILE) {
            Ok(t) => t,
            Err(e) => {
                return Err(e);
            },
        };
        proof {
            let u = parsed_document(user_text@)->0;
            let b = parsed_document(CRMRC_FILE@)->0;
            assert(catalog_source(with_source(u)) == catalog_source(u));
            assert(catalog_source(with_source(b)) == catalog_source(b));
            assert(with_source(with_source(u)) == with_source(u));
        }
        RuntimeConfig::from_documents(extend, default)
    }

    /// Opens the catalog from two parsed catalog documents: the user's and
    /// the built-in one.
    pub fn from_documents(user: Toml, builtin: Toml) -> (r: Result<RuntimeConfig, Error>)
        requires
            user.wf(),
            builtin.wf(),
        ensures
            opened(Some(user.nodes()), Some(builtin.nodes()), r),
    {
        let mut user = user;
        let mut builtin = builtin;
        let ghost u = user.nodes();
        let ghost b = builtin.nodes();
        match RuntimeConfig::source_exists(&mut user) {
            Err(e) => {
                return Err(e);
            },
            Ok(()) => {},
        }
        match RuntimeConfig::source_exists(&mut builtin) {
            Err(e) => {
                return Err(e);
            },
            Ok(()) => {},
        }
        let extend = match RuntimeConfig::extract_to_map(&user) {
            Ok(v) => v,
            Err(e) => {
                return Err(e);
            },
        };
        let default = match RuntimeConfig::extract_to_map(&builtin) {
            Ok(v) => v,
            Err(e) => {
                return Err(e);
            },
        };
        Ok(RuntimeConfig { extend, default, config: user })
    }

    /// The names of all mirrors: each once, ascending.
    pub fn registry_names(&self) -> (r: Vec<String>)
        ensures
            names_view(r@) == self.all().map_values(|e: (Seq<char>, DescriptionView)| e.0),
    {
        let all = self.iter();
        let mut out: Vec<String> = Vec::new();
        let mut i: usize = 0;
        while i < all.len()
            invariant
                i <= all.len(),
                refs_view(all@) == self.all(),
                names_view(out@) == self.all().take(i as int).map_values(
                    |e: (Seq<char>, DescriptionView)| e.0,
                ),
            decreases all.len() - i,
        {
            let (k, _v) = all[i];
            let ghost before = out@;
            out.push(k.clone());
            proof {
                let f = |e: (Seq<char>, DescriptionView)| e.0;
                assert(refs_view(all@)[i as int].0 == k@);
                assert(names_view(out@) =~= names_view(before).push(k@));
                assert(self.all().take(i + 1) =~= self.all().take(i as int).push(
                    self.all()[i as int],
                ));
                assert(names_view(out@) =~= self.all().take(i + 1).map_values(f));
            }
            i = i + 1;
        }
        assert(self.all().take(all.len() as int) =~= self.all());
        out
    }

    /// The listing of all mirrors, one line each: the marker of the current
    /// mirror, the padded name, the separator and the index address.
    pub fn to_string(&self, current: &String, sep: Option<&str>) -> (r: String)
        ensures
            r@ == trimmed_end(listing(self.all(), current@, opt_sep(sep))),
    {
        let ghost given = sep;
        let sep = match sep {
            Some(s) => s,
            None => "",
        };
        proof {
            reveal_strlit("");
            assert(sep@ =~= opt_sep(given));
        }
        let all = self.iter();
        let mut memo = String::new();
        let mut i: usize = 0;
        assert(self.all().take(0) =~= Seq::<(Seq<char>, DescriptionView)>::empty());
        while i < all.len()
            invariant
                i <= all.len(),
                refs_view(all@) == self.all(),
                memo@ == listing(self.all().take(i as int), current@, sep@),
            decreases all.len() - i,
        {
            let (k, v) = all[i];
            let p = status_prefix(k, current);
            let name = append_end_spaces(k.as_str(), None);
            let ghost before = memo@;
            memo.append(p.as_str());
            memo.append(name.as_str());
            memo.append(sep);
            memo.append(v.registry.as_str());
            push_char(&mut memo, '\n');
            proof {
                let e = self.all()[i as int];
                assert(refs_view(all@)[i as int] == (k@, v@));
                assert(self.all().take(i + 1).drop_last() =~= self.all().take(i as int));
                assert(self.all().take(i + 1).last() == e);
                assert(memo@ =~= before + listing_line(e, current@, sep@));
            }
            i = i + 1;
        }
        assert(self.all().take(all.len() as int) =~= self.all());
        trim_end(memo.as_str())
    }

    /// The names of all mirrors as bullet points, one per line.
    pub fn to_key_string(&self) -> (r: String)
        ensures
            r@ == key_lines(self.all()),
    {
        let all = self.iter();
        let mut out = String::new();
        let mut i: usize = 0;
        assert(self.all().take(0) =~= Seq::<(Seq<char>, DescriptionView)>::empty());
        while i < all.len()
            invariant
                i <= all.len(),
                refs_view(all@) == self.all(),
                out@ == key_lines(self.all().take(i as int)),
            decreases all.len() - i,
        {
            let (k, _v) = all[i];
            let ghost before = out@;
            if i > 0 {
                push_char(&mut out, '\n');
            }
            out.append("  - ");
            out.append(k.as_str());
            proof {
                assert(refs_view(all@)[i as int].0 == k@);
                assert(self.all().take(i + 1).drop_last() =~= self.all().take(i as int));
                assert(self.all().take(i + 1).last() == self.all()[i as int]);
                if i == 0 {
                    assert(out@ =~= "  - "@ + k@);
                } else {
                    assert(out@ =~= before + seq!['\n'] + "  - "@ + k@);
                }
            }
            i = i + 1;
        }
        assert(self.all().take(all.len() as int) =~= self.all());
        out
    }

    /// Rewrites the `source` table of the catalog document from the user's
    /// mirrors, and gives the text to write to the catalog file. The table
    /// holds one table per mirror of the user's, in the order of their
    /// names, each with its `registry` before its `dl`, and stands where
    /// `source` stood, or behind all other keys.
    pub fn write(&mut self) -> (r: String)
        requires
            old(self).wf(),
        ensures
            final(self).wf(),
            final(self)@.builtin == old(self)@.builtin,
            final(self)@.user == old(self)@.user,
            final(self)@.document == old(self)@.document.insert(
                SOURCE@,
                Node::Table(catalog_table(old(self)@.user)),
            ),
            final(self).layout() == put_slot(
                old(self).layout(),
                SOURCE@,
                Layout::Table(catalog_layout(old(self)@.user)),
            ),
            r@ == trimmed(final(self).text()),
    {
        self.convert_from_map();
        self.config.toml_string()
    }

    /// The description of a mirror: the user's, else the built-in one.
    pub fn get(&self, registry_name: &str) -> (r: Option<&RegistryDescription>)
        requires
            self.wf(),
        ensures
            opt_desc(r) == self.description(registry_name@),
    {
        match self.get_extend(registry_name) {
            None => self.get_default(registry_name),
            v => v,
        }
    }

    /// The user's description of a mirror.
    pub fn get_extend(&self, registry_name: &str) -> (r: Option<&RegistryDescription>)
        requires
            self.wf(),
        ensures
            opt_desc(r) == lookup(self@.user, registry_name@),
    {
        find(&self.extend, registry_name)
    }

    /// The built-in description of a mirror.
    pub fn get_default(&self, registry_name: &str) -> (r: Option<&RegistryDescription>)
        requires
            self.wf(),
        ensures
            opt_desc(r) == lookup(self@.builtin, registry_name@),
    {
        find(&self.default, registry_name)
    }

    /// Adds a mirror of the user's, or overwrites the one of that name.
    pub fn save(&mut self, registry_name: &str, registry_addr: &str, registry_dl: &str)
        requires
            old(self).wf(),
        ensures
            final(self).wf(),
            final(self)@.builtin == old(self)@.builtin,
            final(self)@.document == old(self)@.document,
            forall|k: Seq<char>|
                lookup(final(self)@.user, k) == (if k == registry_name@ {
                    Some(DescriptionView { registry: registry_addr@, dl: registry_dl@ })
                } else {
                    lookup(old(self)@.user, k)
                }),
    {
        upsert(
            &mut self.extend,
            registry_name.to_owned(),
            RegistryDescription { registry: registry_addr.to_owned(), dl: registry_dl.to_owned() },
        );
    }

    /// Removes a mirror of the user's. The default mirror and the built-in
    /// mirrors are protected, also where the user shadows them, and a mirror
    /// that the user has not defined is not found; the catalog is then as it
    /// was.
    pub fn remove(&mut self, registry_name: &str) -> (r: Result<(), Error>)
        requires
            old(self).wf(),
        ensures
            final(self).wf(),
            final(self)@.builtin == old(self)@.builtin,
            final(self)@.document == old(self)@.document,
            match removal_fault(old(self)@, registry_name@) {
                Some(e) => r matches Err(x) && x@ == e && final(self)@ == old(self)@,
                None => r is Ok && forall|k: Seq<char>|
                    lookup(final(self)@.user, k) == (if k == registry_name@ {
                        None
                    } else {
                        lookup(old(self)@.user, k)
                    }),
            },
    {
        if str_eq(registry_name, RUST_LANG) || self.get_default(registry_name).is_some() {
            return Err(Error::BuiltinProtected);
        }
        if self.get_extend(registry_name).is_none() {
            return Err(Error::not_found(registry_name, Operation::Remove));
        }
        delete(&mut self.extend, registry_name);
        Ok(())
    }

    /// The names and index addresses to record under `registries`: those of
    /// all mirrors but the default one and the excluded one.
    pub fn to_tuples(&self, exclude_name: Option<&str>) -> (r: Vec<(&str, &str)>)
        ensures
            crate::cargo::pairs(r@) == tuples(self.all(), opt_str(exclude_name)),
    {
        let all = self.iter();
        let mut memo: Vec<(&str, &str)> = Vec::new();
        let mut i: usize = 0;
        let ghost keep = |e: (Seq<char>, DescriptionView)|
            e.0 != RUST_LANG@ && Some(e.0) != opt_str(exclude_name);
        let ghost pick = |e: (Seq<char>, DescriptionView)| (e.0, e.1.registry);
        assert(self.all().take(0) =~= Seq::<(Seq<char>, DescriptionView)>::empty());
        while i < all.len()
            invariant
                i <= all.len(),
                refs_view(all@) == self.all(),
                keep == |e: (Seq<char>, DescriptionView)|
                    e.0 != RUST_LANG@ && Some(e.0) != opt_str(exclude_name),
                pick == |e: (Seq<char>, DescriptionView)| (e.0, e.1.registry),
                crate::cargo::pairs(memo@) == self.all().take(i as int).filter(keep).map_values(
                    pick,
                ),
            decreases all.len() - i,
        {
            let (k, v) = all[i];
            let excluded = match exclude_name {
                Some(x) => str_eq(k.as_str(), x),
                None => false,
            };
            let ghost before = memo@;
            proof {
                let e = self.all()[i as int];
                assert(refs_view(all@)[i as int] == (k@, v@));
                assert(self.all().take(i + 1).drop_last() =~= self.all().take(i as int));
                assert(self.all().take(i + 1).last() == e);
                reveal(Seq::filter);
            }
            if !(str_eq(k.as_str(), RUST_LANG) || excluded) {
                memo.push((k.as_str(), v.registry.as_str()));
                assert(crate::cargo::pairs(memo@) =~= crate::cargo::pairs(before).push(
                    (k@, v.registry@),
                ));
                assert(crate::cargo::pairs(memo@) =~= self.all().take(i + 1).filter(
                    keep,
                ).map_values(pick));
            } else {
                assert(crate::cargo::pairs(memo@) =~= self.all().take(i + 1).filter(
                    keep,
                ).map_values(pick));
            }
            i = i + 1;
        }
        assert(self.all().take(all.len() as int) =~= self.all());
        memo
    }

    /// All mirrors in the order of the listing: every name once, ascending,
    /// with the user's entry where it shadows a built-in one.
    pub fn iter(&self) -> (r: Vec<(&String, &RegistryDescription)>)
        ensures
            refs_view(r@) == self.all(),
    {
        let ghost b = entries_view(self.default@);
        let ghost u = entries_view(self.extend@);
        let mut out: Vec<(&String, &RegistryDescription)> = Vec::new();
        let mut i: usize = 0;
        let mut j: usize = 0;
        proof {
            assert(b.skip(0) =~= b);
            assert(u.skip(0) =~= u);
            assert(refs_view(out@) + merged(b, u) =~= merged(b, u));
        }
        while i < self.default.len() || j < self.extend.len()
            invariant
                i <= self.default.len(),
                j <= self.extend.len(),
                b == entries_view(self.default@),
                u == entries_view(self.extend@),
                refs_view(out@) + merged(b.skip(i as int), u.skip(j as int)) == merged(b, u),
            decreases (self.default.len() - i) + (self.extend.len() - j),
        {
            let ghost before = refs_view(out@);
            let ghost bs = b.skip(i as int);
            let ghost us = u.skip(j as int);
            proof {
                if i < self.default.len() {
                    assert(bs[0] == b[i as int]);
                    assert(bs.drop_first() =~= b.skip(i + 1));
                    assert(b[i as int] == (self.default@[i as int].0@, self.default@[i as int].1@));
                }
                if j < self.extend.len() {
                    assert(us[0] == u[j as int]);
                    assert(us.drop_first() =~= u.skip(j + 1));
                    assert(u[j as int] == (self.extend@[j as int].0@, self.extend@[j as int].1@));
                }
            }
            let take_builtin = j >= self.extend.len() || (i < self.default.len() && str_lt(
                self.default[i].0.as_str(),
                self.extend[j].0.as_str(),
            ));
            if take_builtin {
                out.push((&self.default[i].0, &self.default[i].1));
                proof {
                    assert(refs_view(out@) =~= before.push(bs[0]));
                    assert(merged(bs, us) =~= seq![bs[0]] + merged(b.skip(i + 1), us));
                    assert(refs_view(out@) + merged(b.skip(i + 1), us) =~= before + merged(
                        bs,
                        us,
                    ));
                }
                i = i + 1;
            } else {
                let shadowed = i < self.default.len() && !str_lt(
                    self.extend[j].0.as_str(),
                    self.default[i].0.as_str(),
                );
                out.push((&self.extend[j].0, &self.extend[j].1));
                proof {
                    assert(refs_view(out@) =~= before.push(us[0]));
                    let next_b = if shadowed {
                        b.skip(i + 1)
                    } else {
                        bs
                    };
                    assert(merged(bs, us) =~= seq![us[0]] + merged(next_b, u.skip(j + 1)));
                    assert(refs_view(out@) + merged(next_b, u.skip(j + 1)) =~= before + merged(
                        bs,
                        us,
                    ));
                }
                if shadowed {
                    i = i + 1;
                }
                j = j + 1;
            }
        }
        proof {
            assert(b.skip(i as int) =~= Seq::<(Seq<char>, DescriptionView)>::empty());
            assert(refs_view(out@) + merged(b.skip(i as int), u.skip(j as int)) =~= refs_view(
                out@,
            ));
        }
        out
    }

    /// Parses a catalog document and sees to it that it has a `source` table.
    pub fn parse(data: &str) -> (r: Result<Toml, Error>)
        ensures
            match parsed_document(data@) {
                None => r matches Err(e) && e@ == ErrorView::CatalogParse,
                Some(root) => match catalog_source(root) {
                    Ok(_) => r matches Ok(t) && t.wf() && t.nodes() == with_source(root),
                    Err(e0) => r matches Err(e) && e@ == e0,
                },
            },
    {
        let mut config = match Toml::parse(data) {
            Ok(c) => c,
            Err(_) => {
                return Err(Error::CatalogParse);
            },
        };
        match RuntimeConfig::source_exists(&mut config) {
            Ok(()) => Ok(config),
            Err(e) => Err(e),
        }
    }

    /// Creates an empty `source` table where the document has none.
    fn source_exists(config: &mut Toml) -> (r: Result<(), Error>)
        requires
            old(config).wf(),
        ensures
            final(config).wf(),
            match catalog_source(old(config).nodes()) {
                Ok(_) => r is Ok && final(config).nodes() == with_source(old(config).nodes()),
                Err(e0) => r matches Err(e) && e@ == e0 && final(config).nodes() == old(
                    config,
                ).nodes(),
            },
    {
        let data = config.table_mut();
        match table_get(data, SOURCE) {
            None => {
                put(data, SOURCE, table_item());
                Ok(())
            },
            Some(source) => {
                if item_as_table(source).is_none() {
                    Err(Error::CatalogSourceNotTable)
                } else {
                    Ok(())
                }
            },
        }
    }

    /// Reads the entries of the `source` table of a catalog document.
    pub fn extract_to_map(config: &Toml) -> (r: Result<Vec<(String, RegistryDescription)>, Error>)
        requires
            config.wf(),
            subtable(config.nodes(), SOURCE@) is Some,
        ensures
            ({
                let source = subtable(config.nodes(), SOURCE@)->0;
                match r {
                    Ok(v) => faultless(source) && sorted(entries_view(v@)) && holds(
                        entries_view(v@),
                        source,
                    ),
                    Err(e) => fault_in(source, e@),
                }
            }),
    {
        let data = config.table();
        let source = get_table(data, SOURCE).unwrap();
        let ghost src = table_nodes(*source);
        let keys = table_keys(source);
        let mut map: Vec<(String, RegistryDescription)> = Vec::new();
        let mut i: usize = 0;
        assert(sorted(entries_view(map@)));
        assert forall|k: Seq<char>| lookup(entries_view(map@), k) is None by {
            assert(!has_name(entries_view(map@), k));
        }
        while i < keys.len()
            invariant
                i <= keys.len(),
                src == table_nodes(*source),
                subtable(config.nodes(), SOURCE@) == Some(src),
                forall|k: Seq<char>| #[trigger]
                    src.contains_key(k) <==> exists|j: int|
                        0 <= j < keys@.len() && #[trigger] keys@[j]@ == k,
                sorted(entries_view(map@)),
                forall|j: int| 0 <= j < i ==> entry_fault(keys@[j]@, src[keys@[j]@]) is None,
                forall|k: Seq<char>|
                    lookup(entries_view(map@), k) == (if exists|j: int|
                        0 <= j < i && #[trigger] keys@[j]@ == k {
                        entry_of(src[k])
                    } else {
                        None
                    }),
            decreases keys.len() - i,
        {
            let key = keys[i].as_str();
            assert(src.contains_key(key@));
            let ghost before = entries_view(map@);
            match get_table(source, key) {
                Some(v) => {
                    let r = get_text(v, REGISTRY);
                    let d = get_text(v, DL);
                    match (r, d) {
                        (Some(registry), Some(dl)) => {
                            upsert(
                                &mut map,
                                key.to_owned(),
                                RegistryDescription::new(registry.to_owned(), dl.to_owned()),
                            );
                        },
                        _ => {
                            assert(entry_fault(key@, src[key@]) == Some(
                                ErrorView::CatalogMissingField { name: key@ },
                            ));
                            return Err(Error::CatalogMissingField { name: key.to_owned() });
                        },
                    }
                },
                None => {
                    assert(entry_fault(key@, src[key@]) == Some(
                        ErrorView::CatalogEntryNotTable { name: key@ },
                    ));
                    return Err(Error::CatalogEntryNotTable { name: key.to_owned() });
                },
            }
            proof {
                let after = entries_view(map@);
                assert forall|k: Seq<char>|
                    lookup(after, k) == (if exists|j: int|
                        0 <= j < i + 1 && #[trigger] keys@[j]@ == k {
                        entry_of(src[k])
                    } else {
                        None
                    }) by {
                    if k == key@ {
                        assert(keys@[i as int]@ == k);
                    } else if exists|j: int| 0 <= j < i && #[trigger] keys@[j]@ == k {
                        let j = choose|j: int| 0 <= j < i && #[trigger] keys@[j]@ == k;
                        assert(0 <= j < i + 1 && keys@[j]@ == k);
                    } else if exists|j: int| 0 <= j < i + 1 && #[trigger] keys@[j]@ == k {
                        let j = choose|j: int| 0 <= j < i + 1 && #[trigger] keys@[j]@ == k;
                        assert(j == i);
                    }
                }
            }
            i = i + 1;
        }
        proof {
            let s = entries_view(map@);
            assert forall|k: Seq<char>| #[trigger] src.contains_key(k) implies entry_fault(
                k,
                src[k],
            ) is None by {
                let j = choose|j: int| 0 <= j < keys@.len() && #[trigger] keys@[j]@ == k;
                assert(entry_fault(keys@[j]@, src[keys@[j]@]) is None);
            }
            assert forall|k: Seq<char>|
                #[trigger] lookup(s, k) == (if src.contains_key(k) {
                    entry_of(src[k])
                } else {
                    None
                }) by {
                if src.contains_key(k) {
                    let j = choose|j: int| 0 <= j < keys@.len() && #[trigger] keys@[j]@ == k;
                    assert(0 <= j < i && keys@[j]@ == k);
                }
            }
        }
        Ok(map)
    }

    /// Rewrites the `source` table of the catalog document from the user's
    /// mirrors.
    fn convert_from_map(&mut self)
        requires
            old(self).wf(),
        ensures
            final(self).wf(),
            final(self)@.builtin == old(self)@.builtin,
            final(self)@.user == old(self)@.user,
            final(self)@.document == old(self)@.document.insert(
                SOURCE@,
                Node::Table(catalog_table(old(self)@.user)),
            ),
            final(self).layout() == put_slot(
                old(self).layout(),
                SOURCE@,
                Layout::Table(catalog_layout(old(self)@.user)),
            ),
    {
        let ghost user = entries_view(self.extend@);
        let ghost root0 = self.config.nodes();
        let ghost layout0 = self.config.layout();
        let ghost none = Layout::Table(Seq::empty());
        proof {
            lemma_entry_keys();
        }
        let config = self.config.table_mut();
        put(config, SOURCE, table_item());
        let source = get_table_mut(config, SOURCE);
        let mut i: usize = 0;
        proof {
            assert(table_nodes(*source) =~= catalog_table(user.take(0))) by {
                assert forall|k: Seq<char>| !has_name(user.take(0), k) by {}
            }
            lemma_slot_after_put(layout0, SOURCE@, none, Layout::Table(table_layout(*source)));
            assert(table_layout(*source) =~= catalog_layout(user.take(0)));
        }
        while i < self.extend.len()
            invariant
                i <= self.extend.len(),
                user == entries_view(self.extend@),
                sorted(user),
                REGISTRY@ != DL@,
                none == Layout::Table(Seq::empty()),
                table_nodes(*source) == catalog_table(user.take(i as int)),
                table_layout(*source) == catalog_layout(user.take(i as int)),
            decreases self.extend.len() - i,
        {
            let k = self.extend[i].0.as_str();
            let v = &self.extend[i].1;
            let ghost before = table_nodes(*source);
            let ghost slots = table_layout(*source);
            put(source, k, table_item());
            let target = get_table_mut(source, k);
            proof {
                lemma_slot_after_put(slots, k@, none, Layout::Table(table_layout(*target)));
                assert(table_layout(*target) =~= Seq::<(Seq<char>, Layout)>::empty());
            }
            put(target, REGISTRY, text_item(v.registry.as_str()));
            put(target, DL, text_item(v.dl.as_str()));
            proof {
                let e = user[i as int];
                assert(e == (k@, v@));
                assert(table_nodes(*source) =~= before.insert(k@, entry_table(v@)));
                lemma_catalog_table_push(user, i as int);
                // the layout: the new entry stands behind all others
                let empty = Seq::<(Seq<char>, Layout)>::empty();
                assert(!has_slot(empty, REGISTRY@));
                let one = empty.push((REGISTRY@, Layout::Leaf));
                assert(!has_slot(one, DL@)) by {
                    assert forall|x: int| 0 <= x < one.len() implies (#[trigger] one[x]).0
                        != DL@ by {}
                }
                assert(table_layout(*target) =~= entry_layout()->Table_0);
                assert(!has_slot(slots, k@)) by {
                    lemma_name_lt_irreflexive(k@);
                    assert forall|x: int| 0 <= x < slots.len() implies (#[trigger] slots[x]).0
                        != k@ by {
                        assert(slots[x].0 == user[x].0);
                        assert(name_lt(user[x].0, user[i as int].0));
                    }
                }
                lemma_set_after_put(slots, k@, none, entry_layout());
                assert(table_layout(*source) == slots.push((k@, entry_layout())));
                assert(user.take(i + 1) =~= user.take(i as int).push(e));
                assert(table_layout(*source) =~= catalog_layout(user.take(i + 1)));
            }
            i = i + 1;
        }
        proof {
            assert(user.take(self.extend.len() as int) =~= user);
            lemma_set_after_put(
                layout0,
                SOURCE@,
                none,
                Layout::Table(catalog_layout(user)),
            );
        }
    }
}

} // verus!
