//! The override lifecycle tracker: turns groups of rules on and off as a
//! caller visits a linear sequence of pages.
//!
//! Rule groups live once in an arena; tracker entries reference them by
//! index, so entries fanned out from a URL list share one group. An entry
//! waits in `pending` under the URL that activates it, then sits in `active`
//! under the URL that retires it. A single-page entry activates and retires
//! on the same page; a range entry stays active for every page from its
//! start through its end, inclusive.

use vstd::prelude::*;

use crate::sed::{Sed, SedModel};
use crate::urlsel::{UrlSelection, UrlSelectionModel};

verus! {

/// An authored override: the pages it applies to, an optional title
/// override, and its rules.
pub struct OverrideChoice {
    pub urls: UrlSelection,
    pub title: Option<String>,
    pub subs: Vec<Sed>,
}

/// The mathematical value of an authored override.
pub struct OverrideChoiceModel {
    pub urls: UrlSelectionModel,
    pub title: Option<Seq<char>>,
    pub subs: Seq<SedModel>,
}

/// The view of an optional string.
pub open spec fn opt_str_view(t: Option<String>) -> Option<Seq<char>> {
    match t {
        Some(s) => Some(s@),
        None => None,
    }
}

impl OverrideChoice {
    /// The mathematical value of this override.
    pub open spec fn view(&self) -> OverrideChoiceModel {
        OverrideChoiceModel {
            urls: self.urls@,
            title: opt_str_view(self.title),
            subs: self.subs@.map_values(|s: Sed| s@),
        }
    }
}

/// A tracker entry: the URL that retires it, its title override, and the
/// arena index of its rule group.
pub struct Entry {
    pub off_url: String,
    pub title: Option<String>,
    pub group: usize,
}

/// The mathematical value of a tracker entry.
pub struct EntryModel {
    pub off_url: Seq<char>,
    pub title: Option<Seq<char>>,
    pub group: int,
}

impl Entry {
    /// The mathematical value of this entry.
    pub open spec fn view(&self) -> EntryModel {
        EntryModel {
            off_url: self.off_url@,
            title: opt_str_view(self.title),
            group: self.group as int,
        }
    }
}

/// An association from URL keys to the entries filed under them.
pub type Assoc = Seq<(Seq<char>, Seq<EntryModel>)>;

/// The views of a vector of entries.
pub open spec fn entry_views(v: Seq<Entry>) -> Seq<EntryModel> {
    v.map_values(|e: Entry| e@)
}

/// The view of an association vector.
pub open spec fn assoc_views(m: Seq<(String, Vec<Entry>)>) -> Assoc {
    m.map_values(|p: (String, Vec<Entry>)| (p.0@, entry_views(p.1@)))
}

/// Whether the keys of an association are pairwise distinct.
pub open spec fn keys_distinct(m: Assoc) -> bool {
    forall|i: int, j: int| 0 <= i < j < m.len() ==> (#[trigger] m[i]).0 != (#[trigger] m[j]).0
}

/// The index of a key in an association, if present.
pub open spec fn assoc_find(m: Assoc, k: Seq<char>) -> Option<int> {
    if exists|i: int| 0 <= i < m.len() && (#[trigger] m[i]).0 == k {
        Some(choose|i: int| 0 <= i < m.len() && (#[trigger] m[i]).0 == k)
    } else {
        None
    }
}

/// The entries filed under a key; empty when the key is absent.
pub open spec fn assoc_get(m: Assoc, k: Seq<char>) -> Seq<EntryModel> {
    match assoc_find(m, k) {
        Some(i) => m[i].1,
        None => Seq::empty(),
    }
}

/// The association without the given key.
pub open spec fn assoc_remove(m: Assoc, k: Seq<char>) -> Assoc {
    match assoc_find(m, k) {
        Some(i) => m.remove(i),
        None => m,
    }
}

/// The association with one more entry filed under a key: an existing key
/// keeps its place and gains the entry at the end of its list; a new key is
/// appended.
pub open spec fn assoc_push(m: Assoc, k: Seq<char>, e: EntryModel) -> Assoc {
    match assoc_find(m, k) {
        Some(i) => m.update(i, (k, m[i].1.push(e))),
        None => m.push((k, seq![e])),
    }
}

/// The active association after filing each moved entry under the URL that
/// retires it, in order.
pub open spec fn merge_active(a: Assoc, moved: Seq<EntryModel>) -> Assoc
    decreases moved.len(),
{
    if moved.len() == 0 {
        a
    } else {
        merge_active(assoc_push(a, moved[0].off_url, moved[0]), moved.drop_first())
    }
}

/// The group indices of a list of entries, in order.
pub open spec fn group_ids_of(entries: Seq<EntryModel>) -> Seq<int> {
    entries.map_values(|e: EntryModel| e.group)
}

/// The group indices of every entry of an association, in key order then
/// entry order.
pub open spec fn flatten_groups(m: Assoc) -> Seq<int>
    decreases m.len(),
{
    if m.len() == 0 {
        Seq::empty()
    } else {
        group_ids_of(m[0].1) + flatten_groups(m.drop_first())
    }
}

/// The title of the last entry in the list that carries one, starting from
/// a fallback.
pub open spec fn last_title(entries: Seq<EntryModel>, acc: Option<Seq<char>>) -> Option<Seq<char>>
    decreases entries.len(),
{
    if entries.len() == 0 {
        acc
    } else {
        last_title(
            entries.drop_first(),
            if entries[0].title is Some {
                entries[0].title
            } else {
                acc
            },
        )
    }
}

/// Whether every entry of an association names a group inside the arena.
pub open spec fn entries_ok(m: Assoc, glen: int) -> bool {
    forall|i: int, j: int|
        0 <= i < m.len() && 0 <= j < (#[trigger] m[i]).1.len() ==> 0 <= (#[trigger] m[i].1[j]).group
            < glen
}

/// Pushing an entry with a valid group keeps an association valid.
proof fn lemma_push_ok(m: Assoc, k: Seq<char>, e: EntryModel, glen: int)
    requires
        entries_ok(m, glen),
        0 <= e.group < glen,
        keys_distinct(m),
    ensures
        entries_ok(assoc_push(m, k, e), glen),
        keys_distinct(assoc_push(m, k, e)),
        assoc_get(assoc_push(m, k, e), k) == assoc_get(m, k).push(e),
        forall|k2: Seq<char>| k2 != k ==> assoc_get(assoc_push(m, k, e), k2) == assoc_get(m, k2),
{
    let m2 = assoc_push(m, k, e);
    match assoc_find(m, k) {
        Some(i) => {
            assert(m[i].0 == k);
            assert forall|i2: int, j2: int|
                0 <= i2 < m2.len() && 0 <= j2 < (#[trigger] m2[i2]).1.len() implies 0 <= (
            #[trigger] m2[i2].1[j2]).group < glen by {
                if i2 == i {
                    if j2 < m[i].1.len() {
                        assert(m2[i2].1[j2] == m[i].1[j2]);
                    } else {
                        assert(m2[i2].1[j2] == e);
                    }
                } else {
                    assert(m2[i2] == m[i2]);
                }
            }
            assert(keys_distinct(m2));
            assert(assoc_find(m2, k) == Some(i)) by {
                assert(m2[i].0 == k);
                let w = assoc_find(m2, k)->0;
                if w != i {
                    assert(m2[w] == m[w]);
                }
            }
            assert forall|k2: Seq<char>| k2 != k implies assoc_get(m2, k2) == assoc_get(
                m,
                k2,
            ) by {
                match assoc_find(m, k2) {
                    Some(w) => {
                        assert(m2[w] == m[w]);
                        assert(assoc_find(m2, k2) is Some);
                        let w2 = assoc_find(m2, k2)->0;
                        assert(w2 == w || m2[w2] == m[w2]);
                        assert(w2 == w);
                    },
                    None => {
                        if assoc_find(m2, k2) is Some {
                            let w2 = assoc_find(m2, k2)->0;
                            assert(m2[w2].0 == k2);
                            assert(w2 != i);
                            assert(m[w2].0 == k2);
                        }
                    },
                }
            }
        },
        None => {
            assert forall|i2: int, j2: int|
                0 <= i2 < m2.len() && 0 <= j2 < (#[trigger] m2[i2]).1.len() implies 0 <= (
            #[trigger] m2[i2].1[j2]).group < glen by {
                if i2 < m.len() {
                    assert(m2[i2] == m[i2]);
                } else {
                    assert(m2[i2].1 == seq![e]);
                }
            }
            assert forall|i2: int, j2: int| 0 <= i2 < j2 < m2.len() implies (#[trigger] m2[i2]).0
                != (#[trigger] m2[j2]).0 by {
                if j2 < m.len() {
                } else {
                    assert(m2[j2].0 == k);
                    assert(m2[i2] == m[i2]);
                    assert(m[i2].0 != k);
                }
            }
            assert(assoc_find(m2, k) == Some(m.len() as int)) by {
                assert(m2[m.len() as int].0 == k);
                let w = assoc_find(m2, k)->0;
                if w != m.len() {
                    assert(m2[w] == m[w]);
                }
            }
            assert(assoc_get(m2, k) =~= assoc_get(m, k).push(e));
            assert forall|k2: Seq<char>| k2 != k implies assoc_get(m2, k2) == assoc_get(
                m,
                k2,
            ) by {
                match assoc_find(m, k2) {
                    Some(w) => {
                        assert(m2[w] == m[w]);
                        let w2 = assoc_find(m2, k2)->0;
                        if w2 != w {
                            assert(m2[w2].0 == k2);
                        }
                    },
                    None => {
                        if assoc_find(m2, k2) is Some {
                            let w2 = assoc_find(m2, k2)->0;
                            assert(m2[w2].0 == k2);
                            assert(w2 < m.len());
                        }
                    },
                }
            }
        },
    }
}

/// Removing a key keeps an association valid, empties that key, and leaves
/// every other key unchanged.
proof fn lemma_remove_ok(m: Assoc, k: Seq<char>, glen: int)
    requires
        entries_ok(m, glen),
        keys_distinct(m),
    ensures
        entries_ok(assoc_remove(m, k), glen),
        keys_distinct(assoc_remove(m, k)),
        assoc_get(assoc_remove(m, k), k) == Seq::<EntryModel>::empty(),
        forall|k2: Seq<char>| k2 != k ==> assoc_get(assoc_remove(m, k), k2) == assoc_get(m, k2),
{
    let m2 = assoc_remove(m, k);
    match assoc_find(m, k) {
        Some(i) => {
            assert(m[i].0 == k);
            assert forall|i2: int, j2: int|
                0 <= i2 < m2.len() && 0 <= j2 < (#[trigger] m2[i2]).1.len() implies 0 <= (
            #[trigger] m2[i2].1[j2]).group < glen by {
                if i2 < i {
                    assert(m2[i2] == m[i2]);
                } else {
                    assert(m2[i2] == m[i2 + 1]);
                }
            }
            assert forall|i2: int, j2: int| 0 <= i2 < j2 < m2.len() implies (#[trigger] m2[i2]).0
                != (#[trigger] m2[j2]).0 by {
                let a = if i2 < i {
                    i2
                } else {
                    i2 + 1
                };
                let b = if j2 < i {
                    j2
                } else {
                    j2 + 1
                };
                assert(m2[i2] == m[a] && m2[j2] == m[b]);
            }
            assert(assoc_find(m2, k) is None) by {
                if assoc_find(m2, k) is Some {
                    let w = assoc_find(m2, k)->0;
                    let a = if w < i {
                        w
                    } else {
                        w + 1
                    };
                    assert(m2[w] == m[a]);
                    assert(m[a].0 == k && m[i].0 == k && a != i);
                }
            }
            assert forall|k2: Seq<char>| k2 != k implies assoc_get(m2, k2) == assoc_get(
                m,
                k2,
            ) by {
                match assoc_find(m, k2) {
                    Some(w) => {
                        assert(m[w].0 == k2);
                        assert(w != i);
                        let w2 = if w < i {
                            w
                        } else {
                            w - 1
                        };
                        assert(m2[w2] == m[w]);
                        assert(assoc_find(m2, k2) is Some);
                        let w3 = assoc_find(m2, k2)->0;
                        let a3 = if w3 < i {
                            w3
                        } else {
                            w3 + 1
                        };
                        assert(m2[w3] == m[a3]);
                        assert(a3 == w);
                    },
                    None => {
                        if assoc_find(m2, k2) is Some {
                            let w3 = assoc_find(m2, k2)->0;
                            let a3 = if w3 < i {
                                w3
                            } else {
                                w3 + 1
                            };
                            assert(m2[w3] == m[a3]);
                            assert(m[a3].0 == k2);
                        }
                    },
                }
            }
        },
        None => {
            if assoc_find(m, k) is None {
                assert(forall|i2: int| 0 <= i2 < m.len() ==> (#[trigger] m[i2]).0 != k);
            }
        },
    }
}

/// Merging entries with valid groups keeps an association valid.
proof fn lemma_merge_ok(a: Assoc, moved: Seq<EntryModel>, glen: int)
    requires
        entries_ok(a, glen),
        keys_distinct(a),
        forall|j: int| 0 <= j < moved.len() ==> 0 <= (#[trigger] moved[j]).group < glen,
    ensures
        entries_ok(merge_active(a, moved), glen),
        keys_distinct(merge_active(a, moved)),
    decreases moved.len(),
{
    if moved.len() > 0 {
        lemma_push_ok(a, moved[0].off_url, moved[0], glen);
        lemma_merge_ok(assoc_push(a, moved[0].off_url, moved[0]), moved.drop_first(), glen);
    }
}

/// Merging never removes an entry: whatever is filed under a key stays
/// there, in order, and moved entries land at the end of the key they
/// retire on.
proof fn lemma_merge_extends(a: Assoc, moved: Seq<EntryModel>, glen: int, k: Seq<char>)
    requires
        entries_ok(a, glen),
        keys_distinct(a),
        forall|j: int| 0 <= j < moved.len() ==> 0 <= (#[trigger] moved[j]).group < glen,
    ensures
        assoc_get(merge_active(a, moved), k).len() >= assoc_get(a, k).len(),
        forall|x: int|
            0 <= x < assoc_get(a, k).len() ==> assoc_get(merge_active(a, moved), k)[x] == assoc_get(
                a,
                k,
            )[x],
        forall|x: int|
            assoc_get(a, k).len() <= x < assoc_get(merge_active(a, moved), k).len()
                ==> (#[trigger] assoc_get(merge_active(a, moved), k)[x]).off_url == k
                && moved.contains(assoc_get(merge_active(a, moved), k)[x]),
    decreases moved.len(),
{
    if moved.len() > 0 {
        let e = moved[0];
        let a2 = assoc_push(a, e.off_url, e);
        lemma_push_ok(a, e.off_url, e, glen);
        lemma_merge_extends(a2, moved.drop_first(), glen, k);
        assert forall|x: int| 0 <= x < assoc_get(a, k).len() implies assoc_get(
            merge_active(a, moved),
            k,
        )[x] == assoc_get(a, k)[x] by {
            assert(assoc_get(merge_active(a2, moved.drop_first()), k)[x] == assoc_get(a2, k)[x]);
            if e.off_url == k {
                assert(assoc_get(a2, k) == assoc_get(a, k).push(e));
            } else {
                assert(assoc_get(a2, k) == assoc_get(a, k));
            }
        }
        assert forall|x: int|
            assoc_get(a, k).len() <= x < assoc_get(merge_active(a, moved), k).len() implies (
        #[trigger] assoc_get(merge_active(a, moved), k)[x]).off_url == k && moved.contains(
            assoc_get(merge_active(a, moved), k)[x],
        ) by {
            if x < assoc_get(a2, k).len() {
                assert(e.off_url == k);
                assert(assoc_get(a2, k) == assoc_get(a, k).push(e));
                assert(assoc_get(merge_active(a2, moved.drop_first()), k)[x] == assoc_get(
                    a2,
                    k,
                )[x]);
                assert(assoc_get(a2, k)[x] == e);
                assert(moved[0] == e);
            } else {
                let got = assoc_get(merge_active(a2, moved.drop_first()), k)[x];
                assert(moved.drop_first().contains(got));
                let w = choose|w: int|
                    0 <= w < moved.drop_first().len() && moved.drop_first()[w] == got;
                assert(moved[w + 1] == got);
            }
        }
    }
}

/// An entry filed somewhere in an association contributes its group to the
/// flattened group list.
proof fn lemma_flatten_contains(m: Assoc, k: Seq<char>, x: int)
    requires
        keys_distinct(m),
        0 <= x < assoc_get(m, k).len(),
    ensures
        flatten_groups(m).contains(assoc_get(m, k)[x].group),
    decreases m.len(),
{
    let i = assoc_find(m, k)->0;
    assert(m[i].0 == k && assoc_get(m, k) == m[i].1);
    if i == 0 {
        assert(flatten_groups(m)[x] == group_ids_of(m[0].1)[x]);
        assert(flatten_groups(m).contains(assoc_get(m, k)[x].group));
    } else {
        let m2 = m.drop_first();
        assert(forall|w: int| 0 <= w < m2.len() ==> #[trigger] m2[w] == m[w + 1]);
        assert forall|w1: int, w2: int| 0 <= w1 < w2 < m2.len() implies (#[trigger] m2[w1]).0 != (
        #[trigger] m2[w2]).0 by {
            assert(m2[w1] == m[w1 + 1] && m2[w2] == m[w2 + 1]);
        }
        assert(assoc_find(m2, k) is Some) by {
            assert(m2[i - 1].0 == k);
        }
        let w = assoc_find(m2, k)->0;
        assert(m2[w].0 == k);
        assert(m[w + 1].0 == k);
        assert(w + 1 == i);
        assert(assoc_get(m2, k) == m[i].1);
        lemma_flatten_contains(m2, k, x);
        let y = choose|y: int|
            0 <= y < flatten_groups(m2).len() && flatten_groups(m2)[y] == assoc_get(m2, k)[x].group;
        assert(flatten_groups(m)[group_ids_of(m[0].1).len() + y] == flatten_groups(m2)[y]);
    }
}

/// An entry among the moved ones ends up filed under the URL that retires
/// it.
proof fn lemma_merge_contains(a: Assoc, moved: Seq<EntryModel>, x: int, glen: int)
    requires
        keys_distinct(a),
        entries_ok(a, glen),
        forall|j: int| 0 <= j < moved.len() ==> 0 <= (#[trigger] moved[j]).group < glen,
        0 <= x < moved.len(),
    ensures
        assoc_get(merge_active(a, moved), moved[x].off_url).contains(moved[x]),
    decreases moved.len(),
{
    let e = moved[0];
    let a2 = assoc_push(a, e.off_url, e);
    lemma_push_ok(a, e.off_url, e, glen);
    if x == 0 {
        lemma_merge_extends(a2, moved.drop_first(), glen, e.off_url);
        let b2 = assoc_get(a2, e.off_url);
        assert(b2 == assoc_get(a, e.off_url).push(e));
        assert(b2[b2.len() - 1] == e);
        assert(assoc_get(merge_active(a2, moved.drop_first()), e.off_url)[b2.len() - 1] == e);
        assert(assoc_get(merge_active(a, moved), e.off_url).contains(e));
    } else {
        lemma_merge_contains(a2, moved.drop_first(), x - 1, glen);
        assert(moved.drop_first()[x - 1] == moved[x]);
    }
}

/// Whether every entry of an association sits under the URL that retires it.
pub open spec fn keyed_ok(m: Assoc) -> bool {
    forall|i: int, j: int|
        0 <= i < m.len() && 0 <= j < (#[trigger] m[i]).1.len() ==> (#[trigger] m[i].1[j]).off_url
            == m[i].0
}

/// Filing an entry under the URL that retires it keeps an association
/// keyed.
proof fn lemma_push_keyed(m: Assoc, e: EntryModel)
    requires
        keyed_ok(m),
    ensures
        keyed_ok(assoc_push(m, e.off_url, e)),
{
    let m2 = assoc_push(m, e.off_url, e);
    match assoc_find(m, e.off_url) {
        Some(i) => {
            assert(m[i].0 == e.off_url);
            assert forall|i2: int, j2: int|
                0 <= i2 < m2.len() && 0 <= j2 < (#[trigger] m2[i2]).1.len() implies (
            #[trigger] m2[i2].1[j2]).off_url == m2[i2].0 by {
                if i2 == i {
                    if j2 < m[i].1.len() {
                        assert(m2[i2].1[j2] == m[i].1[j2]);
                    } else {
                        assert(m2[i2].1[j2] == e);
                    }
                } else {
                    assert(m2[i2] == m[i2]);
                }
            }
        },
        None => {
            assert forall|i2: int, j2: int|
                0 <= i2 < m2.len() && 0 <= j2 < (#[trigger] m2[i2]).1.len() implies (
            #[trigger] m2[i2].1[j2]).off_url == m2[i2].0 by {
                if i2 < m.len() {
                    assert(m2[i2] == m[i2]);
                } else {
                    assert(m2[i2].1 == seq![e]);
                }
            }
        },
    }
}

/// Merging keeps an association keyed.
proof fn lemma_merge_keyed(a: Assoc, moved: Seq<EntryModel>)
    requires
        keyed_ok(a),
    ensures
        keyed_ok(merge_active(a, moved)),
    decreases moved.len(),
{
    if moved.len() > 0 {
        lemma_push_keyed(a, moved[0]);
        lemma_merge_keyed(assoc_push(a, moved[0].off_url, moved[0]), moved.drop_first());
    }
}

/// Removing a key keeps an association keyed.
proof fn lemma_remove_keyed(m: Assoc, k: Seq<char>)
    requires
        keyed_ok(m),
    ensures
        keyed_ok(assoc_remove(m, k)),
{
    match assoc_find(m, k) {
        Some(i) => {
            let m2 = m.remove(i);
            assert forall|i2: int, j2: int|
                0 <= i2 < m2.len() && 0 <= j2 < (#[trigger] m2[i2]).1.len() implies (
            #[trigger] m2[i2].1[j2]).off_url == m2[i2].0 by {
                if i2 < i {
                    assert(m2[i2] == m[i2]);
                } else {
                    assert(m2[i2] == m[i2 + 1]);
                }
            }
        },
        None => {},
    }
}

/// The association after one page visit: pending entries keyed by the page
/// are gone.
pub open spec fn advance_pending(p: Assoc, url: Seq<char>) -> Assoc {
    assoc_remove(p, url)
}

/// The active association after one page visit: the page's pending entries
/// move in under the URLs that retire them, then every entry retired by
/// this very page leaves.
pub open spec fn advance_active(p: Assoc, a: Assoc, url: Seq<char>) -> Assoc {
    assoc_remove(merge_active(a, assoc_get(p, url)), url)
}

/// The entries retired on this page: those just moved in that retire
/// immediately, after the ones that were already waiting for this URL.
pub open spec fn advance_ending(p: Assoc, a: Assoc, url: Seq<char>) -> Seq<EntryModel> {
    assoc_get(merge_active(a, assoc_get(p, url)), url)
}

/// The rule groups in effect for this page: the groups of the entries
/// retired on it, then the groups of every entry still active.
pub open spec fn advance_groups(p: Assoc, a: Assoc, url: Seq<char>) -> Seq<int> {
    group_ids_of(advance_ending(p, a, url)) + flatten_groups(advance_active(p, a, url))
}

/// A single-page entry for a URL: it activates and retires on that page.
pub open spec fn single_entry(u: Seq<char>, title: Option<Seq<char>>, gid: int) -> EntryModel {
    EntryModel { off_url: u, title, group: gid }
}

/// The pending association after filing single-page entries for each URL of
/// a list from position `j` on, skipping URLs already seen earlier in the
/// list.
pub open spec fn push_list_from(
    p: Assoc,
    l: Seq<Seq<char>>,
    j: int,
    title: Option<Seq<char>>,
    gid: int,
) -> Assoc
    decreases l.len() - j when 0 <= j <= l.len()
{
    if j >= l.len() {
        p
    } else if exists|j2: int| 0 <= j2 < j && l[j2] == l[j] {
        push_list_from(p, l, j + 1, title, gid)
    } else {
        push_list_from(assoc_push(p, l[j], single_entry(l[j], title, gid)), l, j + 1, title, gid)
    }
}

/// The pending association after filing one authored override: a range
/// waits under its start and retires at its end without a title; a single
/// URL and each distinct URL of a list wait under themselves.
pub open spec fn push_choice(p: Assoc, c: OverrideChoiceModel, gid: int) -> Assoc {
    match c.urls {
        UrlSelectionModel::Range { start, end } => assoc_push(
            p,
            start,
            EntryModel { off_url: end, title: None, group: gid },
        ),
        UrlSelectionModel::Url(u) => assoc_push(p, u, single_entry(u, c.title, gid)),
        UrlSelectionModel::List(l) => push_list_from(p, l, 0, c.title, gid),
    }
}

/// The pending association after filing the authored overrides from
/// position `i` on, each under its position as group id.
pub open spec fn build_pending(p: Assoc, cs: Seq<OverrideChoiceModel>, i: int) -> Assoc
    decreases cs.len() - i when 0 <= i <= cs.len()
{
    if i >= cs.len() {
        p
    } else {
        build_pending(push_choice(p, cs[i], i), cs, i + 1)
    }
}

/// A copy of an optional title.
fn clone_opt_string(t: &Option<String>) -> (r: Option<String>)
    ensures
        opt_str_view(r) == opt_str_view(*t),
{
    match t {
        Some(s) => Some(s.clone()),
        None => None,
    }
}

/// Removes a key from an association vector and hands back its entries.
fn remove_key(m: &mut Vec<(String, Vec<Entry>)>, key: &str) -> (r: Vec<Entry>)
    requires
        keys_distinct(assoc_views(old(m)@)),
    ensures
        assoc_views(final(m)@) == assoc_remove(assoc_views(old(m)@), key@),
        entry_views(r@) == assoc_get(assoc_views(old(m)@), key@),
{
    let ghost mv = assoc_views(m@);
    let mut i: usize = 0;
    while i < m.len()
        invariant
            m@ == old(m)@,
            mv == assoc_views(m@),
            keys_distinct(mv),
            i <= m@.len(),
            forall|j: int| 0 <= j < i ==> (#[trigger] mv[j]).0 != key@,
        decreases m@.len() - i,
    {
        if crate::strutil::streq(m[i].0.as_str(), key) {
            proof {
                assert(mv[i as int].0 == m@[i as int].0@);
                let w = assoc_find(mv, key@)->0;
                assert(mv[w].0 == key@);
                assert(w == i);
            }
            let pair = m.remove(i);
            proof {
                assert(assoc_views(m@) =~= mv.remove(i as int));
                assert(entry_views(pair.1@) == mv[i as int].1);
            }
            return pair.1;
        }
        i = i + 1;
    }
    proof {
        if assoc_find(mv, key@) is Some {
            let w = assoc_find(mv, key@)->0;
            assert(mv[w].0 == key@);
        }
        assert(entry_views(Seq::<Entry>::empty()) =~= Seq::<EntryModel>::empty());
    }
    Vec::new()
}

/// Files an entry under the URL that retires it.
fn push_entry(m: &mut Vec<(String, Vec<Entry>)>, key: String, e: Entry)
    requires
        keys_distinct(assoc_views(old(m)@)),
    ensures
        assoc_views(final(m)@) == assoc_push(assoc_views(old(m)@), key@, e@),
{
    let ghost mv = assoc_views(m@);
    let ghost ev = e@;
    let mut i: usize = 0;
    while i < m.len()
        invariant
            m@ == old(m)@,
            mv == assoc_views(m@),
            keys_distinct(mv),
            ev == e@,
            i <= m@.len(),
            forall|j: int| 0 <= j < i ==> (#[trigger] mv[j]).0 != key@,
        decreases m@.len() - i,
    {
        if crate::strutil::streq(m[i].0.as_str(), key.as_str()) {
            proof {
                assert(mv[i as int].0 == key@);
                let w = assoc_find(mv, key@)->0;
                assert(mv[w].0 == key@);
                assert(w == i);
            }
            let mut pair = m.remove(i);
            pair.1.push(e);
            proof {
                assert(entry_views(pair.1@) =~= mv[i as int].1.push(ev));
            }
            m.insert(i, pair);
            proof {
                assert(assoc_views(m@) =~= mv.update(i as int, (key@, mv[i as int].1.push(ev))));
            }
            return ;
        }
        i = i + 1;
    }
    proof {
        if assoc_find(mv, key@) is Some {
            let w = assoc_find(mv, key@)->0;
            assert(mv[w].0 == key@);
        }
    }
    let mut entries: Vec<Entry> = Vec::new();
    entries.push(e);
    proof {
        assert(entry_views(entries@) =~= seq![ev]);
    }
    m.push((key, entries));
    proof {
        assert(assoc_views(m@) =~= mv.push((key@, seq![ev])));
    }
}

/// The rule groups to apply to one page, with an optional title override.
pub struct OverrideSet {
    pub group_ids: Vec<usize>,
    pub title: Option<String>,
}

impl OverrideSet {
    /// The set that applies nothing.
    pub fn empty() -> (r: Self)
        ensures
            r.group_ids@.len() == 0,
            r.title is None,
    {
        OverrideSet { group_ids: Vec::new(), title: None }
    }

    /// Whether this set applies nothing.
    pub fn is_empty(&self) -> (r: bool)
        ensures
            r == (self.group_ids@.len() == 0 && self.title is None),
    {
        self.group_ids.len() == 0 && self.title.is_none()
    }
}

/// Tracks which override groups are pending, and which are active, as pages
/// are visited in order.
pub struct OverrideTracker {
    /// The rule-group arena; entries reference groups by index.
    pub groups: Vec<Vec<Sed>>,
    /// Entries not yet reached, keyed by the URL that activates them.
    pub pending: Vec<(String, Vec<Entry>)>,
    /// Entries in effect, keyed by the URL that retires them.
    pub active: Vec<(String, Vec<Entry>)>,
}

impl OverrideTracker {
    /// Keys are unique in both maps and every entry's group index lies
    /// inside the arena.
    pub open spec fn wf(&self) -> bool {
        &&& keys_distinct(assoc_views(self.pending@))
        &&& keys_distinct(assoc_views(self.active@))
        &&& entries_ok(assoc_views(self.pending@), self.groups@.len() as int)
        &&& entries_ok(assoc_views(self.active@), self.groups@.len() as int)
    }

    /// The models of the rule groups in the arena.
    pub open spec fn groups_view(&self) -> Seq<Seq<SedModel>> {
        self.groups@.map_values(|g: Vec<Sed>| g@.map_values(|s: Sed| s@))
    }

    /// A tracker with every authored override waiting to activate: override
    /// `i` keeps its rules as group `i`, and its entries are filed as the
    /// pending association built from the override list.
    pub fn new(overrides: Vec<OverrideChoice>) -> (r: Self)
        ensures
            r.wf(),
            r.groups_view() == overrides@.map_values(|c: OverrideChoice| c@.subs),
            assoc_views(r.pending@) == build_pending(
                Seq::empty(),
                overrides@.map_values(|c: OverrideChoice| c@),
                0,
            ),
            assoc_views(r.active@).len() == 0,
    {
        let ghost cs = overrides@.map_values(|c: OverrideChoice| c@);
        let ghost target = build_pending(Seq::empty(), cs, 0);
        let n = overrides.len();
        let mut rest = overrides;
        let mut groups: Vec<Vec<Sed>> = Vec::new();
        let mut pending: Vec<(String, Vec<Entry>)> = Vec::new();
        let mut i: usize = 0;
        proof {
            assert(rest@.map_values(|c: OverrideChoice| c@) =~= cs.skip(0));
            assert(assoc_views(pending@) =~= Seq::<(Seq<char>, Seq<EntryModel>)>::empty());
            assert(cs.subrange(0, 0).map_values(|c: OverrideChoiceModel| c.subs) =~= groups@
                .map_values(|g: Vec<Sed>| g@.map_values(|ss: Sed| ss@)));
        }
        while rest.len() > 0
            invariant
                n == cs.len(),
                i + rest@.len() == n,
                rest@.map_values(|c: OverrideChoice| c@) == cs.skip(i as int),
                groups@.len() == i,
                groups@.map_values(|g: Vec<Sed>| g@.map_values(|ss: Sed| ss@)) == cs.subrange(
                    0,
                    i as int,
                ).map_values(|c: OverrideChoiceModel| c.subs),
                build_pending(assoc_views(pending@), cs, i as int) == target,
                keys_distinct(assoc_views(pending@)),
                entries_ok(assoc_views(pending@), i as int),
            decreases rest@.len(),
        {
            let ghost rv = rest@;
            let c = rest.remove(0);
            proof {
                assert(rv.map_values(|cc: OverrideChoice| cc@)[0] == c@);
                assert(cs.skip(i as int)[0] == cs[i as int]);
                assert(c@ == cs[i as int]);
                let aseq = rest@.map_values(|cc: OverrideChoice| cc@);
                let bseq = cs.skip(i as int + 1);
                assert forall|x: int| 0 <= x < aseq.len() implies aseq[x] == bseq[x] by {
                    assert(rest@[x] == rv[x + 1]);
                    assert(aseq[x] == rest@[x]@);
                    assert(rv.map_values(|cc: OverrideChoice| cc@)[x + 1] == rv[x + 1]@);
                    assert(cs.skip(i as int)[x + 1] == cs[i as int + 1 + x]);
                    assert(bseq[x] == cs[i as int + 1 + x]);
                }
                assert(aseq =~= bseq);
            }
            let ghost p0 = assoc_views(pending@);
            match c.urls {
                UrlSelection::Range { start, end } => {
                    let entry = Entry { off_url: end, title: None, group: i };
                    proof {
                        lemma_push_ok(p0, start@, entry@, i as int + 1);
                        assert(entries_ok(p0, i as int + 1));
                    }
                    push_entry(&mut pending, start, entry);
                },
                UrlSelection::Url(u) => {
                    let key = u.clone();
                    let entry = Entry { off_url: u, title: c.title, group: i };
                    proof {
                        lemma_push_ok(p0, key@, entry@, i as int + 1);
                        assert(entries_ok(p0, i as int + 1));
                    }
                    push_entry(&mut pending, key, entry);
                },
                UrlSelection::List(l) => {
                    let ghost lv = l@.map_values(|ss: String| ss@);
                    let ghost tv = opt_str_view(c.title);
                    let mut j: usize = 0;
                    proof {
                        assert(entries_ok(p0, i as int + 1));
                        assert(push_choice(p0, cs[i as int], i as int) == push_list_from(
                            p0,
                            lv,
                            0,
                            tv,
                            i as int,
                        ));
                    }
                    while j < l.len()
                        invariant
                            lv == l@.map_values(|ss: String| ss@),
                            tv == opt_str_view(c.title),
                            j <= lv.len(),
                            i < cs.len(),
                            push_list_from(
                                assoc_views(pending@),
                                lv,
                                j as int,
                                tv,
                                i as int,
                            ) == push_choice(p0, cs[i as int], i as int),
                            keys_distinct(assoc_views(pending@)),
                            entries_ok(assoc_views(pending@), i as int + 1),
                        decreases lv.len() - j,
                    {
                        let mut dup = false;
                        let mut j2: usize = 0;
                        while j2 < j
                            invariant
                                lv == l@.map_values(|ss: String| ss@),
                                j2 <= j < lv.len(),
                                dup == exists|x: int|
                                    0 <= x < j2 && #[trigger] lv[x] == lv[j as int],
                            decreases j - j2,
                        {
                            let same = crate::strutil::streq(l[j2].as_str(), l[j].as_str());
                            proof {
                                assert(lv[j2 as int] == l@[j2 as int]@);
                                assert(lv[j as int] == l@[j as int]@);
                            }
                            if same {
                                proof {
                                    assert(lv[j2 as int] == lv[j as int]);
                                }
                                dup = true;
                            } else {
                                proof {
                                    assert(lv[j2 as int] != lv[j as int]);
                                }
                            }
                            j2 = j2 + 1;
                        }
                        if !dup {
                            let ghost pj = assoc_views(pending@);
                            let entry = Entry {
                                off_url: l[j].clone(),
                                title: clone_opt_string(&c.title),
                                group: i,
                            };
                            proof {
                                assert(lv[j as int] == l@[j as int]@);
                                assert(entry@ == single_entry(lv[j as int], tv, i as int));
                                lemma_push_ok(pj, lv[j as int], entry@, i as int + 1);
                            }
                            push_entry(&mut pending, l[j].clone(), entry);
                        }
                        j = j + 1;
                    }
                },
            }
            let ghost gb = groups@;
            groups.push(c.subs);
            proof {
                assert(cs.subrange(0, i as int + 1) =~= cs.subrange(0, i as int).push(
                    cs[i as int],
                ));
                let aseq = groups@.map_values(|g: Vec<Sed>| g@.map_values(|ss: Sed| ss@));
                let bseq = cs.subrange(0, i as int + 1).map_values(
                    |cc: OverrideChoiceModel| cc.subs,
                );
                let gseq = gb.map_values(|g: Vec<Sed>| g@.map_values(|ss: Sed| ss@));
                let hseq = cs.subrange(0, i as int).map_values(
                    |cc: OverrideChoiceModel| cc.subs,
                );
                assert forall|x: int| 0 <= x < aseq.len() implies aseq[x] == bseq[x] by {
                    assert(bseq[x] == cs.subrange(0, i as int + 1)[x].subs);
                    assert(cs.subrange(0, i as int + 1)[x] == cs[x]);
                    if x < i {
                        assert(groups@[x] == gb[x]);
                        assert(aseq[x] == groups@[x]@.map_values(|ss: Sed| ss@));
                        assert(gseq[x] == gb[x]@.map_values(|ss: Sed| ss@));
                        assert(gseq[x] == hseq[x]);
                        assert(hseq[x] == cs.subrange(0, i as int)[x].subs);
                        assert(cs.subrange(0, i as int)[x] == cs[x]);
                    } else {
                        assert(groups@[x] == c.subs);
                        assert(aseq[x] == c.subs@.map_values(|ss: Sed| ss@));
                        assert(c@.subs == cs[i as int].subs);
                    }
                }
                assert(aseq =~= bseq);
            }
            i = i + 1;
        }
        proof {
            assert(cs.subrange(0, cs.len() as int) =~= cs);
            assert(cs.subrange(0, cs.len() as int).map_values(|cc: OverrideChoiceModel| cc.subs)
                =~= cs.map_values(|cc: OverrideChoiceModel| cc.subs));
        }
        OverrideTracker { groups, pending, active: Vec::new() }
    }

    /// The rules of a group in the arena.
    pub fn group(&self, id: usize) -> (r: &Vec<Sed>)
        requires
            id < self.groups@.len(),
        ensures
            *r == self.groups@[id as int],
    {
        &self.groups[id]
    }

    /// Advances the tracker by one visited page and hands back what applies
    /// to it: pending entries keyed by the page move in under their
    /// retirement URL; entries retired by this very page leave and
    /// contribute their groups and the last title among them; every entry
    /// still active contributes its group as well.
    pub fn with_url(&mut self, url: &str) -> (r: OverrideSet)
        requires
            old(self).wf(),
        ensures
            final(self).wf(),
            final(self).groups == old(self).groups,
            assoc_views(final(self).pending@) == advance_pending(
                assoc_views(old(self).pending@),
                url@,
            ),
            assoc_views(final(self).active@) == advance_active(
                assoc_views(old(self).pending@),
                assoc_views(old(self).active@),
                url@,
            ),
            opt_str_view(r.title) == last_title(
                advance_ending(
                    assoc_views(old(self).pending@),
                    assoc_views(old(self).active@),
                    url@,
                ),
                None,
            ),
            r.group_ids@.map_values(|g: usize| g as int) == advance_groups(
                assoc_views(old(self).pending@),
                assoc_views(old(self).active@),
                url@,
            ),
            forall|x: int|
                0 <= x < r.group_ids@.len() ==> (#[trigger] r.group_ids@[x])
                    < final(self).groups@.len(),
    {
        let ghost glen = self.groups@.len() as int;
        let ghost p0 = assoc_views(self.pending@);
        let ghost a0 = assoc_views(self.active@);
        let ghost pfinal = assoc_remove(p0, url@);
        proof {
            lemma_remove_ok(p0, url@, glen);
        }
        let mut moved = remove_key(&mut self.pending, url);
        let ghost moved0 = entry_views(moved@);
        let ghost merged = merge_active(a0, moved0);
        proof {
            assert forall|j: int|
                0 <= j < moved0.len() implies 0 <= (#[trigger] moved0[j]).group < glen by {
                if assoc_find(p0, url@) is Some {
                    let w = assoc_find(p0, url@)->0;
                    assert(p0[w].1 == moved0);
                }
            }
            lemma_merge_ok(a0, moved0, glen);
        }
        while moved.len() > 0
            invariant
                self.groups == old(self).groups,
                glen == self.groups@.len() as int,
                assoc_views(self.pending@) == pfinal,
                keys_distinct(assoc_views(self.active@)),
                entries_ok(assoc_views(self.active@), glen),
                forall|j: int|
                    0 <= j < entry_views(moved@).len() ==> 0 <= (#[trigger] entry_views(
                        moved@,
                    )[j]).group < glen,
                merge_active(assoc_views(self.active@), entry_views(moved@)) == merged,
            decreases moved@.len(),
        {
            let ghost mvb = entry_views(moved@);
            let ghost av = assoc_views(self.active@);
            let e = moved.remove(0);
            let key = e.off_url.clone();
            proof {
                assert(mvb[0] == e@);
                assert(entry_views(moved@) =~= mvb.drop_first());
                lemma_push_ok(av, e@.off_url, e@, glen);
                assert(merge_active(av, mvb) == merge_active(
                    assoc_push(av, mvb[0].off_url, mvb[0]),
                    mvb.drop_first(),
                ));
            }
            push_entry(&mut self.active, key, e);
        }
        proof {
            assert(entry_views(moved@) =~= Seq::<EntryModel>::empty());
            assert(assoc_views(self.active@) == merged);
            lemma_remove_ok(merged, url@, glen);
        }
        let ghost afinal = assoc_remove(merged, url@);
        let mut ending = remove_key(&mut self.active, url);
        let ghost ending0 = entry_views(ending@);
        proof {
            assert forall|j: int|
                0 <= j < ending0.len() implies 0 <= (#[trigger] ending0[j]).group < glen by {
                if assoc_find(merged, url@) is Some {
                    let w = assoc_find(merged, url@)->0;
                    assert(merged[w].1 == ending0);
                }
            }
        }
        let mut title: Option<String> = None;
        let mut gids: Vec<usize> = Vec::new();
        while ending.len() > 0
            invariant
                self.groups == old(self).groups,
                glen == self.groups@.len() as int,
                assoc_views(self.pending@) == pfinal,
                assoc_views(self.active@) == afinal,
                forall|j: int|
                    0 <= j < entry_views(ending@).len() ==> 0 <= (#[trigger] entry_views(
                        ending@,
                    )[j]).group < glen,
                last_title(entry_views(ending@), opt_str_view(title)) == last_title(ending0, None),
                gids@.map_values(|g: usize| g as int) + group_ids_of(entry_views(ending@))
                    == group_ids_of(ending0),
                forall|x: int| 0 <= x < gids@.len() ==> (#[trigger] gids@[x]) < glen,
            decreases ending@.len(),
        {
            let ghost evb = entry_views(ending@);
            let ghost gvb = gids@;
            let e = ending.remove(0);
            proof {
                assert(evb[0] == e@);
                assert(entry_views(ending@) =~= evb.drop_first());
            }
            if e.title.is_some() {
                title = e.title;
            }
            gids.push(e.group);
            proof {
                assert(gids@ == gvb.push(e.group));
                assert(group_ids_of(evb)[0] == e@.group);
                assert(group_ids_of(evb) =~= seq![e@.group] + group_ids_of(evb.drop_first()));
                assert(gids@.map_values(|g: usize| g as int) =~= gvb.map_values(
                    |g: usize| g as int).push(e@.group));
                assert(gvb.map_values(|g: usize| g as int).push(e@.group) + group_ids_of(
                    evb.drop_first(),
                ) =~= gvb.map_values(|g: usize| g as int) + group_ids_of(evb));
            }
        }
        proof {
            assert(entry_views(ending@) =~= Seq::<EntryModel>::empty());
            assert(group_ids_of(entry_views(ending@)) =~= Seq::<int>::empty());
            assert(gids@.map_values(|g: usize| g as int) + group_ids_of(entry_views(ending@))
                =~= gids@.map_values(|g: usize| g as int));
            assert(afinal.skip(0) =~= afinal);
        }
        let mut i: usize = 0;
        while i < self.active.len()
            invariant
                self.groups == old(self).groups,
                glen == self.groups@.len() as int,
                assoc_views(self.pending@) == pfinal,
                assoc_views(self.active@) == afinal,
                entries_ok(afinal, glen),
                i <= afinal.len(),
                afinal.len() == self.active@.len(),
                gids@.map_values(|g: usize| g as int) + flatten_groups(afinal.skip(i as int))
                    == group_ids_of(ending0) + flatten_groups(afinal),
                forall|x: int| 0 <= x < gids@.len() ==> (#[trigger] gids@[x]) < glen,
            decreases afinal.len() - i,
        {
            let bucket_len = self.active[i].1.len();
            let ghost bucket = afinal[i as int].1;
            proof {
                assert(assoc_views(self.active@)[i as int].1 == entry_views(
                    self.active@[i as int].1@,
                ));
                assert(afinal.skip(i as int)[0] == afinal[i as int]);
                assert(afinal.skip(i as int).drop_first() =~= afinal.skip(i as int + 1));
                assert(flatten_groups(afinal.skip(i as int)) == group_ids_of(bucket)
                    + flatten_groups(afinal.skip(i as int + 1)));
                assert(bucket.skip(0) =~= bucket);
            }
            let mut j: usize = 0;
            while j < bucket_len
                invariant
                    self.groups == old(self).groups,
                    glen == self.groups@.len() as int,
                    assoc_views(self.pending@) == pfinal,
                    assoc_views(self.active@) == afinal,
                    entries_ok(afinal, glen),
                    i < afinal.len(),
                    afinal.len() == self.active@.len(),
                    bucket == afinal[i as int].1,
                    bucket_len == bucket.len(),
                    j <= bucket.len(),
                    gids@.map_values(|g: usize| g as int) + group_ids_of(bucket.skip(j as int))
                        + flatten_groups(afinal.skip(i as int + 1)) == group_ids_of(ending0)
                        + flatten_groups(afinal),
                    forall|x: int| 0 <= x < gids@.len() ==> (#[trigger] gids@[x]) < glen,
                decreases bucket.len() - j,
            {
                let ghost gvb = gids@;
                let g = self.active[i].1[j].group;
                proof {
                    assert(entry_views(self.active@[i as int].1@) == bucket);
                    assert(entry_views(self.active@[i as int].1@)[j as int]
                        == self.active@[i as int].1@[j as int]@);
                    assert(g as int == bucket[j as int].group);
                    assert(group_ids_of(bucket.skip(j as int))[0] == bucket.skip(
                        j as int,
                    )[0].group);
                    assert(bucket.skip(j as int)[0] == bucket[j as int]);
                    assert(group_ids_of(bucket.skip(j as int)) =~= seq![bucket[j as int].group]
                        + group_ids_of(bucket.skip(j as int + 1)));
                }
                gids.push(g);
                proof {
                    assert(gids@ == gvb.push(g));
                    assert(gids@.map_values(|gg: usize| gg as int) =~= gvb.map_values(
                        |gg: usize| gg as int).push(g as int));
                    assert(gvb.map_values(|gg: usize| gg as int).push(g as int) + group_ids_of(
                        bucket.skip(j as int + 1),
                    ) =~= gvb.map_values(|gg: usize| gg as int) + group_ids_of(
                        bucket.skip(j as int),
                    ));
                }
                j = j + 1;
            }
            proof {
                assert(bucket.skip(bucket.len() as int) =~= Seq::<EntryModel>::empty());
                assert(group_ids_of(bucket.skip(bucket.len() as int)) =~= Seq::<int>::empty());
                assert(gids@.map_values(|g: usize| g as int) + group_ids_of(
                    bucket.skip(bucket.len() as int),
                ) + flatten_groups(afinal.skip(i as int + 1)) =~= gids@.map_values(
                    |g: usize| g as int) + flatten_groups(afinal.skip(i as int + 1)));
            }
            i = i + 1;
        }
        proof {
            assert(afinal.skip(afinal.len() as int) =~= Seq::<
                (Seq<char>, Seq<EntryModel>),
            >::empty());
            assert(gids@.map_values(|g: usize| g as int) + flatten_groups(
                afinal.skip(afinal.len() as int),
            ) =~= gids@.map_values(|g: usize| g as int));
        }
        OverrideSet { group_ids: gids, title }
    }
}

/// A range override that starts at the visited page contributes its rules
/// to that very page, and, unless it also ends there, stays in effect,
/// filed under its end URL.
pub proof fn lemma_activation_contributes(p: Assoc, a: Assoc, url: Seq<char>, x: int, glen: int)
    requires
        keys_distinct(p),
        keys_distinct(a),
        entries_ok(p, glen),
        entries_ok(a, glen),
        0 <= x < assoc_get(p, url).len(),
    ensures
        advance_groups(p, a, url).contains(assoc_get(p, url)[x].group),
        assoc_get(p, url)[x].off_url != url ==> assoc_get(
            advance_active(p, a, url),
            assoc_get(p, url)[x].off_url,
        ).contains(assoc_get(p, url)[x]),
{
    let e = assoc_get(p, url)[x];
    let moved = assoc_get(p, url);
    assert forall|j: int| 0 <= j < moved.len() implies 0 <= (#[trigger] moved[j]).group
        < glen by {
        let w = assoc_find(p, url)->0;
        assert(p[w].1 == moved);
    }
    let merged = merge_active(a, moved);
    lemma_merge_contains(a, moved, x, glen);
    lemma_merge_ok(a, moved, glen);
    lemma_remove_ok(merged, url, glen);
    if e.off_url == url {
        let ending = assoc_get(merged, url);
        let w = choose|w: int| 0 <= w < ending.len() && ending[w] == e;
        assert(group_ids_of(ending)[w] == e.group);
        assert(advance_groups(p, a, url)[w] == e.group);
    } else {
        assert(assoc_get(advance_active(p, a, url), e.off_url) == assoc_get(merged, e.off_url));
        let aa = advance_active(p, a, url);
        let w = choose|w: int| 0 <= w < assoc_get(aa, e.off_url).len() && assoc_get(
            aa,
            e.off_url,
        )[w] == e;
        lemma_flatten_contains(aa, e.off_url, w);
        let y = choose|y: int| 0 <= y < flatten_groups(aa).len() && flatten_groups(aa)[y]
            == e.group;
        let pre = group_ids_of(assoc_get(merged, url));
        assert(advance_groups(p, a, url)[pre.len() + y] == e.group);
    }
}

/// A range override still waiting for its end URL contributes its rules to
/// every other page visited, and stays in effect afterwards.
pub proof fn lemma_active_entry_continues(
    p: Assoc,
    a: Assoc,
    off: Seq<char>,
    url: Seq<char>,
    x: int,
    glen: int,
)
    requires
        keys_distinct(p),
        keys_distinct(a),
        entries_ok(p, glen),
        entries_ok(a, glen),
        url != off,
        0 <= x < assoc_get(a, off).len(),
    ensures
        advance_groups(p, a, url).contains(assoc_get(a, off)[x].group),
        assoc_get(advance_active(p, a, url), off).contains(assoc_get(a, off)[x]),
{
    let e = assoc_get(a, off)[x];
    let moved = assoc_get(p, url);
    assert forall|j: int| 0 <= j < moved.len() implies 0 <= (#[trigger] moved[j]).group
        < glen by {
        let w = assoc_find(p, url)->0;
        assert(p[w].1 == moved);
    }
    let merged = merge_active(a, moved);
    lemma_merge_extends(a, moved, glen, off);
    lemma_merge_ok(a, moved, glen);
    lemma_remove_ok(merged, url, glen);
    assert(assoc_get(merged, off)[x] == e);
    let aa = advance_active(p, a, url);
    assert(assoc_get(aa, off) == assoc_get(merged, off));
    lemma_flatten_contains(aa, off, x);
    let y = choose|y: int| 0 <= y < flatten_groups(aa).len() && flatten_groups(aa)[y] == e.group;
    let pre = group_ids_of(assoc_get(merged, url));
    assert(advance_groups(p, a, url)[pre.len() + y] == e.group);
}

/// A range override whose end URL is the visited page contributes its rules
/// to that page one last time.
pub proof fn lemma_active_entry_retires(p: Assoc, a: Assoc, url: Seq<char>, x: int, glen: int)
    requires
        keys_distinct(p),
        keys_distinct(a),
        entries_ok(p, glen),
        entries_ok(a, glen),
        0 <= x < assoc_get(a, url).len(),
    ensures
        advance_groups(p, a, url).contains(assoc_get(a, url)[x].group),
{
    let e = assoc_get(a, url)[x];
    let moved = assoc_get(p, url);
    assert forall|j: int| 0 <= j < moved.len() implies 0 <= (#[trigger] moved[j]).group
        < glen by {
        let w = assoc_find(p, url)->0;
        assert(p[w].1 == moved);
    }
    let merged = merge_active(a, moved);
    lemma_merge_extends(a, moved, glen, url);
    assert(assoc_get(merged, url)[x] == e);
    assert(group_ids_of(assoc_get(merged, url))[x] == e.group);
    assert(advance_groups(p, a, url)[x] == e.group);
}

/// A page visit consumes everything keyed by that page: no entry is left
/// waiting for it, and none is left retiring on it. In particular a
/// single-page override, which retires on its own page, is gone entirely
/// once visited, and contributes to no later page even if the URL recurs.
pub proof fn lemma_visit_consumes_key(p: Assoc, a: Assoc, url: Seq<char>, glen: int)
    requires
        keys_distinct(p),
        keys_distinct(a),
        entries_ok(p, glen),
        entries_ok(a, glen),
        keyed_ok(a),
    ensures
        assoc_get(advance_pending(p, url), url).len() == 0,
        assoc_get(advance_active(p, a, url), url).len() == 0,
        keyed_ok(advance_active(p, a, url)),
        forall|k: Seq<char>, e: EntryModel|
            e.off_url == url ==> !assoc_get(#[trigger] advance_active(p, a, url), k).contains(e),
{
    lemma_remove_ok(p, url, glen);
    let moved = assoc_get(p, url);
    assert forall|j: int| 0 <= j < moved.len() implies 0 <= (#[trigger] moved[j]).group
        < glen by {
        let w = assoc_find(p, url)->0;
        assert(p[w].1 == moved);
    }
    let merged = merge_active(a, moved);
    lemma_merge_ok(a, moved, glen);
    lemma_merge_keyed(a, moved);
    lemma_remove_ok(merged, url, glen);
    lemma_remove_keyed(merged, url);
    let aa = advance_active(p, a, url);
    assert forall|k: Seq<char>, e: EntryModel|
        e.off_url == url implies !assoc_get(#[trigger] advance_active(p, a, url), k).contains(
        e,
    ) by {
        if assoc_get(aa, k).contains(e) {
            let w = assoc_find(aa, k)->0;
            assert(aa[w].0 == k);
            let j = choose|j: int| 0 <= j < aa[w].1.len() && aa[w].1[j] == e;
            assert(aa[w].1[j].off_url == aa[w].0);
            assert(k == url);
            assert(assoc_get(aa, url).len() == 0);
        }
    }
}

/// The group ids the tracker returns for the `t`-th page of a visit
/// sequence, starting from the given pending and active tables.
pub open spec fn spec_groups_at(p: Assoc, a: Assoc, urls: Seq<Seq<char>>, t: int) -> Seq<int>
    decreases t when 0 <= t < urls.len()
{
    if t <= 0 {
        advance_groups(p, a, urls[0])
    } else {
        spec_groups_at(
            advance_pending(p, urls[0]),
            advance_active(p, a, urls[0]),
            urls.skip(1),
            t - 1,
        )
    }
}

/// Whether no entry of the association carries the group.
pub open spec fn spec_no_group(m: Assoc, g: int) -> bool {
    forall|w: int, j: int|
        0 <= w < m.len() && 0 <= j < (#[trigger] m[w]).1.len() ==> (#[trigger] m[w].1[j]).group != g
}

/// One page visit keeps both tracker tables well formed.
proof fn lemma_advance_wf(p: Assoc, a: Assoc, url: Seq<char>, glen: int)
    requires
        keys_distinct(p),
        keys_distinct(a),
        entries_ok(p, glen),
        entries_ok(a, glen),
    ensures
        keys_distinct(advance_pending(p, url)),
        entries_ok(advance_pending(p, url), glen),
        keys_distinct(advance_active(p, a, url)),
        entries_ok(advance_active(p, a, url), glen),
{
    lemma_remove_ok(p, url, glen);
    let moved = assoc_get(p, url);
    assert forall|j: int| 0 <= j < moved.len() implies 0 <= (#[trigger] moved[j]).group
        < glen by {
        let w = assoc_find(p, url)->0;
        assert(p[w].1 == moved);
    }
    lemma_merge_ok(a, moved, glen);
    lemma_remove_ok(merge_active(a, moved), url, glen);
}

/// Filing an entry that does not carry the group keeps it uncarried.
proof fn lemma_push_no_group(m: Assoc, k: Seq<char>, e: EntryModel, g: int)
    requires
        spec_no_group(m, g),
        e.group != g,
    ensures
        spec_no_group(assoc_push(m, k, e), g),
{
    let m2 = assoc_push(m, k, e);
    match assoc_find(m, k) {
        Some(i) => {
            assert forall|w: int, j: int|
                0 <= w < m2.len() && 0 <= j < (#[trigger] m2[w]).1.len() implies (
            #[trigger] m2[w].1[j]).group != g by {
                if w == i {
                    if j < m[i].1.len() {
                        assert(m2[w].1[j] == m[i].1[j]);
                    } else {
                        assert(m2[w].1[j] == e);
                    }
                } else {
                    assert(m2[w] == m[w]);
                }
            }
        },
        None => {
            assert forall|w: int, j: int|
                0 <= w < m2.len() && 0 <= j < (#[trigger] m2[w]).1.len() implies (
            #[trigger] m2[w].1[j]).group != g by {
                if w < m.len() {
                    assert(m2[w] == m[w]);
                } else {
                    assert(m2[w].1[j] == e);
                }
            }
        },
    }
}

/// Removing a key keeps a group uncarried.
proof fn lemma_remove_no_group(m: Assoc, k: Seq<char>, g: int)
    requires
        spec_no_group(m, g),
    ensures
        spec_no_group(assoc_remove(m, k), g),
{
    match assoc_find(m, k) {
        Some(i) => {
            let m2 = m.remove(i);
            assert forall|w: int, j: int|
                0 <= w < m2.len() && 0 <= j < (#[trigger] m2[w]).1.len() implies (
            #[trigger] m2[w].1[j]).group != g by {
                if w < i {
                    assert(m2[w] == m[w]);
                } else {
                    assert(m2[w] == m[w + 1]);
                }
            }
        },
        None => {},
    }
}

/// Merging entries that do not carry the group keeps it uncarried.
proof fn lemma_merge_no_group(a: Assoc, moved: Seq<EntryModel>, g: int)
    requires
        spec_no_group(a, g),
        forall|j: int| 0 <= j < moved.len() ==> (#[trigger] moved[j]).group != g,
    ensures
        spec_no_group(merge_active(a, moved), g),
    decreases moved.len(),
{
    if moved.len() > 0 {
        lemma_push_no_group(a, moved[0].off_url, moved[0], g);
        lemma_merge_no_group(assoc_push(a, moved[0].off_url, moved[0]), moved.drop_first(), g);
    }
}

/// An uncarried group is absent from the flattened group list.
proof fn lemma_flatten_no_group(m: Assoc, g: int)
    requires
        spec_no_group(m, g),
    ensures
        !flatten_groups(m).contains(g),
    decreases m.len(),
{
    if m.len() > 0 {
        let m2 = m.drop_first();
        assert(forall|w: int| 0 <= w < m2.len() ==> #[trigger] m2[w] == m[w + 1]);
        lemma_flatten_no_group(m2, g);
        if flatten_groups(m).contains(g) {
            let y = choose|y: int|
                0 <= y < flatten_groups(m).len() && flatten_groups(m)[y] == g;
            if y < group_ids_of(m[0].1).len() {
                assert(m[0].1[y].group == g);
            } else {
                assert(flatten_groups(m2)[y - group_ids_of(m[0].1).len()] == g);
                assert(flatten_groups(m2).contains(g));
            }
        }
    }
}

/// A page visit returns no uncarried group, and carries it into neither
/// table.
proof fn lemma_absent_group_step(p: Assoc, a: Assoc, url: Seq<char>, g: int, glen: int)
    requires
        keys_distinct(p),
        keys_distinct(a),
        entries_ok(p, glen),
        entries_ok(a, glen),
        spec_no_group(p, g),
        spec_no_group(a, g),
    ensures
        !advance_groups(p, a, url).contains(g),
        spec_no_group(advance_pending(p, url), g),
        spec_no_group(advance_active(p, a, url), g),
{
    let moved = assoc_get(p, url);
    assert forall|j: int| 0 <= j < moved.len() implies (#[trigger] moved[j]).group != g by {
        let w = assoc_find(p, url)->0;
        assert(p[w].1 == moved);
    }
    let merged = merge_active(a, moved);
    lemma_merge_no_group(a, moved, g);
    lemma_remove_no_group(merged, url, g);
    lemma_remove_no_group(p, url, g);
    lemma_flatten_no_group(advance_active(p, a, url), g);
    let ending = advance_ending(p, a, url);
    assert forall|j: int| 0 <= j < ending.len() implies (#[trigger] ending[j]).group != g by {
        let w = assoc_find(merged, url)->0;
        assert(merged[w].1 == ending);
    }
    if advance_groups(p, a, url).contains(g) {
        let y = choose|y: int|
            0 <= y < advance_groups(p, a, url).len() && advance_groups(p, a, url)[y] == g;
        if y < group_ids_of(ending).len() {
            assert(ending[y].group == g);
        } else {
            assert(flatten_groups(advance_active(p, a, url))[y - group_ids_of(ending).len()]
                == g);
            assert(flatten_groups(advance_active(p, a, url)).contains(g));
        }
    }
}

/// Over any visit sequence, a group that no entry of either table carries
/// is never returned.
pub proof fn lemma_absent_group_never_returns(
    p: Assoc,
    a: Assoc,
    urls: Seq<Seq<char>>,
    g: int,
    t: int,
    glen: int,
)
    requires
        keys_distinct(p),
        keys_distinct(a),
        entries_ok(p, glen),
        entries_ok(a, glen),
        spec_no_group(p, g),
        spec_no_group(a, g),
        0 <= t < urls.len(),
    ensures
        !spec_groups_at(p, a, urls, t).contains(g),
    decreases t,
{
    lemma_absent_group_step(p, a, urls[0], g, glen);
    if t > 0 {
        lemma_advance_wf(p, a, urls[0], glen);
        lemma_absent_group_never_returns(
            advance_pending(p, urls[0]),
            advance_active(p, a, urls[0]),
            urls.skip(1),
            g,
            t - 1,
            glen,
        );
    }
}

/// An active entry waiting for its deactivation URL contributes its group
/// to every page visited up to and including the first visit of that URL.
pub proof fn lemma_active_contributes_until_end(
    p: Assoc,
    a: Assoc,
    urls: Seq<Seq<char>>,
    e: EntryModel,
    ib: int,
    glen: int,
)
    requires
        keys_distinct(p),
        keys_distinct(a),
        entries_ok(p, glen),
        entries_ok(a, glen),
        assoc_get(a, e.off_url).contains(e),
        0 <= ib < urls.len(),
        urls[ib] == e.off_url,
        forall|t: int| 0 <= t < ib ==> urls[t] != e.off_url,
    ensures
        forall|t: int| 0 <= t <= ib ==> spec_groups_at(p, a, urls, t).contains(e.group),
    decreases ib,
{
    let x = choose|x: int|
        0 <= x < assoc_get(a, e.off_url).len() && assoc_get(a, e.off_url)[x] == e;
    if ib == 0 {
        lemma_active_entry_retires(p, a, urls[0], x, glen);
    } else {
        lemma_active_entry_continues(p, a, e.off_url, urls[0], x, glen);
        lemma_advance_wf(p, a, urls[0], glen);
        let p1 = advance_pending(p, urls[0]);
        let a1 = advance_active(p, a, urls[0]);
        assert(urls.skip(1)[ib - 1] == urls[ib]);
        assert(forall|t: int| 0 <= t < ib - 1 ==> #[trigger] urls.skip(1)[t] == urls[t + 1]);
        lemma_active_contributes_until_end(p1, a1, urls.skip(1), e, ib - 1, glen);
        assert forall|t: int| 0 <= t <= ib implies spec_groups_at(p, a, urls, t).contains(
            e.group,
        ) by {
            if t > 0 {
                assert(spec_groups_at(p, a, urls, t) == spec_groups_at(
                    p1,
                    a1,
                    urls.skip(1),
                    t - 1,
                ));
            }
        }
    }
}

/// Override lifecycle, range form: a pending entry activated by the first
/// page of a window contributes its rule group to that page and to every
/// following page up to and including the first visit of its deactivation
/// URL.
pub proof fn lemma_entry_lifecycle(
    p: Assoc,
    a: Assoc,
    urls: Seq<Seq<char>>,
    e: EntryModel,
    ib: int,
    glen: int,
)
    requires
        keys_distinct(p),
        keys_distinct(a),
        entries_ok(p, glen),
        entries_ok(a, glen),
        urls.len() > 0,
        assoc_get(p, urls[0]).contains(e),
        0 <= ib < urls.len(),
        urls[ib] == e.off_url,
        forall|t: int| 0 < t < ib ==> urls[t] != e.off_url,
        ib > 0 ==> urls[0] != e.off_url,
    ensures
        forall|t: int| 0 <= t <= ib ==> spec_groups_at(p, a, urls, t).contains(e.group),
{
    let x = choose|x: int|
        0 <= x < assoc_get(p, urls[0]).len() && assoc_get(p, urls[0])[x] == e;
    lemma_activation_contributes(p, a, urls[0], x, glen);
    if ib > 0 {
        lemma_advance_wf(p, a, urls[0], glen);
        let p1 = advance_pending(p, urls[0]);
        let a1 = advance_active(p, a, urls[0]);
        assert(assoc_get(a1, e.off_url).contains(e));
        assert(urls.skip(1)[ib - 1] == urls[ib]);
        assert(forall|t: int| 0 <= t < ib - 1 ==> #[trigger] urls.skip(1)[t] == urls[t + 1]);
        lemma_active_contributes_until_end(p1, a1, urls.skip(1), e, ib - 1, glen);
        assert forall|t: int| 0 <= t <= ib implies spec_groups_at(p, a, urls, t).contains(
            e.group,
        ) by {
            if t > 0 {
                assert(spec_groups_at(p, a, urls, t) == spec_groups_at(
                    p1,
                    a1,
                    urls.skip(1),
                    t - 1,
                ));
            }
        }
    }
}

/// Whether every entry of the association that carries the group sits in
/// the bucket keyed `k`.
pub open spec fn spec_group_only_under(m: Assoc, g: int, k: Seq<char>) -> bool {
    forall|w: int, j: int|
        0 <= w < m.len() && 0 <= j < (#[trigger] m[w]).1.len() && (#[trigger] m[w].1[j]).group == g
            ==> m[w].0 == k
}

/// Removing one key leaves every other key's entries untouched.
proof fn lemma_remove_other_get(m: Assoc, k: Seq<char>, k2: Seq<char>)
    requires
        keys_distinct(m),
        k2 != k,
    ensures
        assoc_get(assoc_remove(m, k), k2) == assoc_get(m, k2),
{
    match assoc_find(m, k) {
        Some(i) => {
            assert(m[i].0 == k);
            let m2 = m.remove(i);
            assert(forall|w: int| 0 <= w < i ==> #[trigger] m2[w] == m[w]);
            assert(forall|w: int| i <= w < m2.len() ==> #[trigger] m2[w] == m[w + 1]);
            assert forall|w1: int, w2: int| 0 <= w1 < w2 < m2.len() implies (#[trigger] m2[w1]).0
                != (#[trigger] m2[w2]).0 by {
                if w1 < i {
                    assert(m2[w1] == m[w1]);
                } else {
                    assert(m2[w1] == m[w1 + 1]);
                }
            }
            match assoc_find(m, k2) {
                Some(w) => {
                    assert(m[w].0 == k2);
                    assert(w != i);
                    if w < i {
                        assert(m2[w].0 == k2);
                    } else {
                        assert(m2[w - 1].0 == k2);
                    }
                    assert(assoc_find(m2, k2) is Some);
                    let w2 = assoc_find(m2, k2)->0;
                    assert(m2[w2].0 == k2);
                    if w2 < i {
                        assert(m[w2].0 == k2);
                        assert(w2 == w);
                    } else {
                        assert(m[w2 + 1].0 == k2);
                        assert(w2 + 1 == w);
                    }
                },
                None => {
                    if assoc_find(m2, k2) is Some {
                        let w2 = assoc_find(m2, k2)->0;
                        assert(m2[w2].0 == k2);
                        if w2 < i {
                            assert(m[w2].0 == k2);
                        } else {
                            assert(m[w2 + 1].0 == k2);
                        }
                        assert(false);
                    }
                },
            }
        },
        None => {},
    }
}

/// Removing a key keeps a group's carriers filed where they were.
proof fn lemma_remove_only_under(m: Assoc, k: Seq<char>, g: int, key: Seq<char>)
    requires
        spec_group_only_under(m, g, key),
    ensures
        spec_group_only_under(assoc_remove(m, k), g, key),
{
    match assoc_find(m, k) {
        Some(i) => {
            let m2 = m.remove(i);
            assert forall|w: int, j: int|
                0 <= w < m2.len() && 0 <= j < (#[trigger] m2[w]).1.len() && (
                #[trigger] m2[w].1[j]).group == g implies m2[w].0 == key by {
                if w < i {
                    assert(m2[w] == m[w]);
                } else {
                    assert(m2[w] == m[w + 1]);
                }
            }
        },
        None => {},
    }
}

/// Merging keeps a group's carriers filed under one key, when they were so
/// filed before and every moved carrier retires on that key.
proof fn lemma_merge_carriers_keyed(a: Assoc, moved: Seq<EntryModel>, g: int, key: Seq<char>)
    requires
        spec_group_only_under(a, g, key),
        forall|j: int|
            0 <= j < moved.len() && (#[trigger] moved[j]).group == g ==> moved[j].off_url == key,
    ensures
        spec_group_only_under(merge_active(a, moved), g, key),
    decreases moved.len(),
{
    if moved.len() > 0 {
        let e = moved[0];
        let a2 = assoc_push(a, e.off_url, e);
        assert(spec_group_only_under(a2, g, key)) by {
            match assoc_find(a, e.off_url) {
                Some(i) => {
                    assert(a[i].0 == e.off_url);
                    assert forall|w: int, j: int|
                        0 <= w < a2.len() && 0 <= j < (#[trigger] a2[w]).1.len() && (
                        #[trigger] a2[w].1[j]).group == g implies a2[w].0 == key by {
                        if w == i {
                            if j < a[i].1.len() {
                                assert(a2[w].1[j] == a[i].1[j]);
                            } else {
                                assert(a2[w].1[j] == e);
                            }
                        } else {
                            assert(a2[w] == a[w]);
                        }
                    }
                },
                None => {
                    assert forall|w: int, j: int|
                        0 <= w < a2.len() && 0 <= j < (#[trigger] a2[w]).1.len() && (
                        #[trigger] a2[w].1[j]).group == g implies a2[w].0 == key by {
                        if w < a.len() {
                            assert(a2[w] == a[w]);
                        } else {
                            assert(a2[w].1[j] == e);
                            assert(a2[w].0 == e.off_url);
                        }
                    }
                },
            }
        }
        lemma_merge_carriers_keyed(a2, moved.drop_first(), g, key);
    }
}

/// A visit of some other page neither returns a group whose carriers all
/// wait under one pending key, nor disturbs them.
proof fn lemma_pending_only_step(
    p: Assoc,
    a: Assoc,
    url: Seq<char>,
    g: int,
    key: Seq<char>,
    glen: int,
)
    requires
        keys_distinct(p),
        keys_distinct(a),
        entries_ok(p, glen),
        entries_ok(a, glen),
        spec_no_group(a, g),
        spec_group_only_under(p, g, key),
        url != key,
    ensures
        !advance_groups(p, a, url).contains(g),
        spec_group_only_under(advance_pending(p, url), g, key),
        spec_no_group(advance_active(p, a, url), g),
        assoc_get(advance_pending(p, url), key) == assoc_get(p, key),
{
    let moved = assoc_get(p, url);
    assert forall|j: int| 0 <= j < moved.len() implies (#[trigger] moved[j]).group != g by {
        let w = assoc_find(p, url)->0;
        assert(p[w].0 == url && p[w].1 == moved);
    }
    let merged = merge_active(a, moved);
    lemma_merge_no_group(a, moved, g);
    lemma_remove_no_group(merged, url, g);
    lemma_remove_only_under(p, url, g, key);
    lemma_remove_other_get(p, url, key);
    lemma_flatten_no_group(advance_active(p, a, url), g);
    let ending = advance_ending(p, a, url);
    assert forall|j: int| 0 <= j < ending.len() implies (#[trigger] ending[j]).group != g by {
        let w = assoc_find(merged, url)->0;
        assert(merged[w].1 == ending);
    }
    if advance_groups(p, a, url).contains(g) {
        let y = choose|y: int|
            0 <= y < advance_groups(p, a, url).len() && advance_groups(p, a, url)[y] == g;
        if y < group_ids_of(ending).len() {
            assert(ending[y].group == g);
        } else {
            assert(flatten_groups(advance_active(p, a, url))[y - group_ids_of(ending).len()]
                == g);
            assert(flatten_groups(advance_active(p, a, url)).contains(g));
        }
    }
}

/// From a state whose only carriers of a group sit in the active table
/// under their retirement URL, one of them given: the group is returned
/// for every page through the first visit of that URL, and never for any
/// page after it.
pub proof fn lemma_active_window(
    p: Assoc,
    a: Assoc,
    urls: Seq<Seq<char>>,
    e: EntryModel,
    ib: int,
    glen: int,
)
    requires
        keys_distinct(p),
        keys_distinct(a),
        entries_ok(p, glen),
        entries_ok(a, glen),
        spec_no_group(p, e.group),
        spec_group_only_under(a, e.group, e.off_url),
        assoc_get(a, e.off_url).contains(e),
        0 <= ib < urls.len(),
        urls[ib] == e.off_url,
        forall|t: int| 0 <= t < ib ==> urls[t] != e.off_url,
    ensures
        forall|t: int| 0 <= t <= ib ==> spec_groups_at(p, a, urls, t).contains(e.group),
        forall|t: int| ib < t < urls.len() ==> !spec_groups_at(p, a, urls, t).contains(e.group),
    decreases ib,
{
    let g = e.group;
    let x = choose|x: int|
        0 <= x < assoc_get(a, e.off_url).len() && assoc_get(a, e.off_url)[x] == e;
    let moved = assoc_get(p, urls[0]);
    assert forall|j: int| 0 <= j < moved.len() implies (#[trigger] moved[j]).group != g by {
        let w = assoc_find(p, urls[0])->0;
        assert(p[w].1 == moved);
    }
    assert forall|j: int| 0 <= j < moved.len() implies 0 <= (#[trigger] moved[j]).group
        < glen by {
        let w = assoc_find(p, urls[0])->0;
        assert(p[w].1 == moved);
    }
    let merged = merge_active(a, moved);
    let p1 = advance_pending(p, urls[0]);
    let a1 = advance_active(p, a, urls[0]);
    lemma_advance_wf(p, a, urls[0], glen);
    lemma_merge_ok(a, moved, glen);
    lemma_remove_no_group(p, urls[0], g);
    lemma_merge_carriers_keyed(a, moved, g, e.off_url);
    lemma_remove_only_under(merged, urls[0], g, e.off_url);
    if ib == 0 {
        lemma_active_entry_retires(p, a, urls[0], x, glen);
        assert(spec_no_group(a1, g)) by {
            assert forall|w: int, j: int|
                0 <= w < a1.len() && 0 <= j < (#[trigger] a1[w]).1.len() implies (
            #[trigger] a1[w].1[j]).group != g by {
                if a1[w].1[j].group == g {
                    assert(a1[w].0 == e.off_url);
                    match assoc_find(merged, urls[0]) {
                        Some(i) => {
                            assert(merged[i].0 == urls[0]);
                            if w < i {
                                assert(a1[w] == merged[w]);
                            } else {
                                assert(a1[w] == merged[w + 1]);
                            }
                            assert(false);
                        },
                        None => {
                            assert(a1[w] == merged[w]);
                            assert(assoc_find(merged, urls[0]) is Some);
                        },
                    }
                }
            }
        }
        assert forall|t: int| ib < t < urls.len() implies !spec_groups_at(
            p,
            a,
            urls,
            t,
        ).contains(g) by {
            lemma_absent_group_never_returns(p1, a1, urls.skip(1), g, t - 1, glen);
            assert(spec_groups_at(p, a, urls, t) == spec_groups_at(p1, a1, urls.skip(1), t - 1));
        }
    } else {
        lemma_active_entry_continues(p, a, e.off_url, urls[0], x, glen);
        lemma_active_window(p1, a1, urls.skip(1), e, ib - 1, glen);
        assert(urls.skip(1)[ib - 1] == urls[ib]);
        assert(forall|t: int| 0 <= t < ib - 1 ==> #[trigger] urls.skip(1)[t] == urls[t + 1]);
        assert forall|t: int| 0 <= t <= ib implies spec_groups_at(p, a, urls, t).contains(
            g,
        ) by {
            if t > 0 {
                assert(spec_groups_at(p, a, urls, t) == spec_groups_at(p1, a1, urls.skip(1), t - 1));
            }
        }
        assert forall|t: int| ib < t < urls.len() implies !spec_groups_at(
            p,
            a,
            urls,
            t,
        ).contains(g) by {
            assert(spec_groups_at(p, a, urls, t) == spec_groups_at(p1, a1, urls.skip(1), t - 1));
        }
    }
}

/// Override lifecycle, whole window: when a group's one carrier waits in
/// pending under a key first visited at position `ia`, the group is
/// returned for no page before `ia`, for every page from `ia` through the
/// first following visit `ib` of the carrier's retirement URL, and never
/// again after `ib` — a repeat of either URL included.
pub proof fn lemma_window_exact(
    p: Assoc,
    a: Assoc,
    urls: Seq<Seq<char>>,
    e: EntryModel,
    ia: int,
    ib: int,
    glen: int,
)
    requires
        keys_distinct(p),
        keys_distinct(a),
        entries_ok(p, glen),
        entries_ok(a, glen),
        spec_no_group(a, e.group),
        0 <= ia <= ib < urls.len(),
        assoc_get(p, urls[ia]).contains(e),
        forall|w: int, j: int|
            0 <= w < p.len() && 0 <= j < (#[trigger] p[w]).1.len() && (#[trigger] p[w].1[j]).group
                == e.group ==> p[w].0 == urls[ia] && p[w].1[j] == e,
        forall|t: int| 0 <= t < ia ==> urls[t] != urls[ia],
        urls[ib] == e.off_url,
        forall|t: int| ia < t < ib ==> urls[t] != e.off_url,
        ia < ib ==> urls[ia] != e.off_url,
    ensures
        forall|t: int| 0 <= t < ia ==> !spec_groups_at(p, a, urls, t).contains(e.group),
        forall|t: int| ia <= t <= ib ==> spec_groups_at(p, a, urls, t).contains(e.group),
        forall|t: int| ib < t < urls.len() ==> !spec_groups_at(p, a, urls, t).contains(e.group),
    decreases ia,
{
    let g = e.group;
    if ia == 0 {
        if ib == 0 {
            assert(e.off_url == urls[0]);
            assert forall|w: int, j: int|
                0 <= w < p.len() && 0 <= j < (#[trigger] p[w]).1.len() && (
            #[trigger] p[w].1[j]).group == g implies p[w].0 == urls[0] && p[w].1[j].off_url
                == urls[0] by {
                assert(p[w].1[j] == e);
            }
            lemma_single_consumed_forever(p, a, urls, e, glen);
        } else {
            let x = choose|x: int|
                0 <= x < assoc_get(p, urls[0]).len() && assoc_get(p, urls[0])[x] == e;
            lemma_activation_contributes(p, a, urls[0], x, glen);
            let moved = assoc_get(p, urls[0]);
            let merged = merge_active(a, moved);
            let p1 = advance_pending(p, urls[0]);
            let a1 = advance_active(p, a, urls[0]);
            lemma_advance_wf(p, a, urls[0], glen);
            assert(spec_no_group(p1, g)) by {
                match assoc_find(p, urls[0]) {
                    Some(i) => {
                        assert(p[i].0 == urls[0]);
                        assert forall|w: int, j: int|
                            0 <= w < p1.len() && 0 <= j < (#[trigger] p1[w]).1.len() implies (
                        #[trigger] p1[w].1[j]).group != g by {
                            if w < i {
                                assert(p1[w] == p[w]);
                                if p[w].1[j].group == g {
                                    assert(p[w].0 == urls[0]);
                                }
                            } else {
                                assert(p1[w] == p[w + 1]);
                                if p[w + 1].1[j].group == g {
                                    assert(p[w + 1].0 == urls[0]);
                                }
                            }
                        }
                    },
                    None => {
                        assert(false);
                    },
                }
            }
            assert forall|j: int|
                0 <= j < moved.len() && (#[trigger] moved[j]).group == g implies moved[j].off_url
                == e.off_url by {
                let w = assoc_find(p, urls[0])->0;
                assert(p[w].1 == moved);
                assert(p[w].1[j] == e);
            }
            lemma_merge_carriers_keyed(a, moved, g, e.off_url);
            lemma_remove_only_under(merged, urls[0], g, e.off_url);
            assert(assoc_get(a1, e.off_url).contains(e));
            assert(urls.skip(1)[ib - 1] == urls[ib]);
            assert(forall|t: int| 0 <= t < ib - 1 ==> #[trigger] urls.skip(1)[t] == urls[t + 1]);
            lemma_active_window(p1, a1, urls.skip(1), e, ib - 1, glen);
            assert forall|t: int| 0 <= t <= ib implies spec_groups_at(p, a, urls, t).contains(
                g,
            ) by {
                if t > 0 {
                    assert(spec_groups_at(p, a, urls, t) == spec_groups_at(
                        p1,
                        a1,
                        urls.skip(1),
                        t - 1,
                    ));
                }
            }
            assert forall|t: int| ib < t < urls.len() implies !spec_groups_at(
                p,
                a,
                urls,
                t,
            ).contains(g) by {
                assert(spec_groups_at(p, a, urls, t) == spec_groups_at(
                    p1,
                    a1,
                    urls.skip(1),
                    t - 1,
                ));
            }
        }
    } else {
        let p1 = advance_pending(p, urls[0]);
        let a1 = advance_active(p, a, urls[0]);
        lemma_advance_wf(p, a, urls[0], glen);
        assert(spec_group_only_under(p, g, urls[ia]));
        lemma_pending_only_step(p, a, urls[0], g, urls[ia], glen);
        assert(assoc_get(p1, urls[ia]).contains(e));
        assert forall|w: int, j: int|
            0 <= w < p1.len() && 0 <= j < (#[trigger] p1[w]).1.len() && (
        #[trigger] p1[w].1[j]).group == g implies p1[w].0 == urls[ia] && p1[w].1[j] == e by {
            match assoc_find(p, urls[0]) {
                Some(i) => {
                    if w < i {
                        assert(p1[w] == p[w]);
                    } else {
                        assert(p1[w] == p[w + 1]);
                    }
                },
                None => {
                    assert(p1[w] == p[w]);
                },
            }
        }
        assert(urls.skip(1)[ia - 1] == urls[ia]);
        assert(urls.skip(1)[ib - 1] == urls[ib]);
        assert(forall|t: int| 0 <= t < ib - 1 ==> #[trigger] urls.skip(1)[t] == urls[t + 1]);
        lemma_window_exact(p1, a1, urls.skip(1), e, ia - 1, ib - 1, glen);
        assert forall|t: int| 0 <= t < ia implies !spec_groups_at(p, a, urls, t).contains(
            g,
        ) by {
            if t > 0 {
                assert(spec_groups_at(p, a, urls, t) == spec_groups_at(p1, a1, urls.skip(1), t - 1));
            }
        }
        assert forall|t: int| ia <= t <= ib implies spec_groups_at(p, a, urls, t).contains(
            g,
        ) by {
            assert(spec_groups_at(p, a, urls, t) == spec_groups_at(p1, a1, urls.skip(1), t - 1));
        }
        assert forall|t: int| ib < t < urls.len() implies !spec_groups_at(
            p,
            a,
            urls,
            t,
        ).contains(g) by {
            assert(spec_groups_at(p, a, urls, t) == spec_groups_at(p1, a1, urls.skip(1), t - 1));
        }
    }
}

/// Override lifecycle, single form: when every carrier of a group waits
/// under the first page and retires on it — a single-page override, or the
/// fan-out of a list URL — the group is returned for that page and never
/// for any later one, a repeat of the URL included.
pub proof fn lemma_single_consumed_forever(
    p: Assoc,
    a: Assoc,
    urls: Seq<Seq<char>>,
    e: EntryModel,
    glen: int,
)
    requires
        keys_distinct(p),
        keys_distinct(a),
        entries_ok(p, glen),
        entries_ok(a, glen),
        urls.len() > 0,
        assoc_get(p, urls[0]).contains(e),
        e.off_url == urls[0],
        forall|w: int, j: int|
            0 <= w < p.len() && 0 <= j < (#[trigger] p[w]).1.len() && (#[trigger] p[w].1[j]).group
                == e.group ==> p[w].0 == urls[0] && p[w].1[j].off_url == urls[0],
        spec_no_group(a, e.group),
    ensures
        spec_groups_at(p, a, urls, 0).contains(e.group),
        forall|t: int| 1 <= t < urls.len() ==> !spec_groups_at(p, a, urls, t).contains(e.group),
{
    let g = e.group;
    let x = choose|x: int|
        0 <= x < assoc_get(p, urls[0]).len() && assoc_get(p, urls[0])[x] == e;
    lemma_activation_contributes(p, a, urls[0], x, glen);
    let p1 = advance_pending(p, urls[0]);
    assert(spec_no_group(p1, g)) by {
        match assoc_find(p, urls[0]) {
            Some(i) => {
                assert(p[i].0 == urls[0]);
                assert forall|w: int, j: int|
                    0 <= w < p1.len() && 0 <= j < (#[trigger] p1[w]).1.len() implies (
                #[trigger] p1[w].1[j]).group != g by {
                    if w < i {
                        assert(p1[w] == p[w]);
                        if p[w].1[j].group == g {
                            assert(p[w].0 == urls[0]);
                        }
                    } else {
                        assert(p1[w] == p[w + 1]);
                        if p[w + 1].1[j].group == g {
                            assert(p[w + 1].0 == urls[0]);
                        }
                    }
                }
            },
            None => {
                assert(false);
            },
        }
    }
    let moved = assoc_get(p, urls[0]);
    assert forall|j: int| 0 <= j < moved.len() implies 0 <= (#[trigger] moved[j]).group
        < glen by {
        let w = assoc_find(p, urls[0])->0;
        assert(p[w].1 == moved);
    }
    assert forall|j: int|
        0 <= j < moved.len() && (#[trigger] moved[j]).group == g implies moved[j].off_url
        == urls[0] by {
        let w = assoc_find(p, urls[0])->0;
        assert(p[w].1 == moved);
    }
    let merged = merge_active(a, moved);
    lemma_merge_ok(a, moved, glen);
    let a1 = advance_active(p, a, urls[0]);
    assert(spec_no_group(a1, g)) by {
        lemma_remove_ok(merged, urls[0], glen);
        assert forall|w: int, j: int|
            0 <= w < a1.len() && 0 <= j < (#[trigger] a1[w]).1.len() implies (
        #[trigger] a1[w].1[j]).group != g by {
            let k = a1[w].0;
            // the bucket survived the removal, so its key is not the page
            match assoc_find(merged, urls[0]) {
                Some(i) => {
                    if w < i {
                        assert(a1[w] == merged[w]);
                    } else {
                        assert(a1[w] == merged[w + 1]);
                    }
                },
                None => {
                    assert(a1[w] == merged[w]);
                },
            }
            assert(k != urls[0]);
            // the surviving bucket is the merged bucket under its key
            let wm = choose|wm: int| 0 <= wm < merged.len() && merged[wm] == a1[w];
            assert(assoc_find(merged, k) is Some);
            let im = assoc_find(merged, k)->0;
            assert(merged[im].0 == k);
            assert(im == wm);
            assert(assoc_get(merged, k) == a1[w].1);
            lemma_merge_extends(a, moved, glen, k);
            if j < assoc_get(a, k).len() {
                assert(assoc_get(merged, k)[j] == assoc_get(a, k)[j]);
                if assoc_get(a, k)[j].group == g {
                    let ia = assoc_find(a, k)->0;
                    assert(a[ia].1 == assoc_get(a, k));
                }
            } else {
                assert(assoc_get(merged, k)[j].off_url == k && moved.contains(
                    assoc_get(merged, k)[j],
                ));
                if assoc_get(merged, k)[j].group == g {
                    let jm = choose|jm: int|
                        0 <= jm < moved.len() && moved[jm] == assoc_get(merged, k)[j];
                    assert(moved[jm].off_url == urls[0]);
                }
            }
        }
    }
    lemma_advance_wf(p, a, urls[0], glen);
    assert forall|t: int| 1 <= t < urls.len() implies !spec_groups_at(p, a, urls, t).contains(
        g,
    ) by {
        lemma_absent_group_never_returns(p1, a1, urls.skip(1), g, t - 1, glen);
        assert(spec_groups_at(p, a, urls, t) == spec_groups_at(p1, a1, urls.skip(1), t - 1));
    }
}

} // verus!
