//! Properties of the editor's state that span its operations.

use vstd::prelude::*;

use crate::model::{DocumentView, FileView, TabView};
use crate::session::{former_title, loaded_tabs};
use crate::tabs::{
    TabSwitcherView, close_target, cycle_target, cycle_times, has_id, insert_tab, kept_tabs, lemma_position_of,
    position_of, remove_tab, title_taken, unique_ids,
};
use crate::workspace::{first_with_id, record_file, without_id};

verus! {

/// From any open tab in focus, cycling through the tabs as many times as
/// there are tabs brings the focus back to it, the tabs unchanged.
pub proof fn law_cycle_returns(v: TabSwitcherView)
    requires
        unique_ids(v.tabs),
        v.current matches Some(c) && has_id(v.tabs, c),
    ensures
        cycle_times(v, v.tabs.len()) == v,
{
    let c = v.current->Some_0;
    let p = position_of(v.tabs, c);
    let n = v.tabs.len() as int;
    assert(v.tabs[p].id == c);
    lemma_cycle_position(v, v.tabs.len());
    vstd::arithmetic::div_mod::lemma_mod_add_multiples_vanish(p, n);
    vstd::arithmetic::div_mod::lemma_small_mod(p as nat, n as nat);
    assert(cycle_times(v, v.tabs.len()).current == Some(c));
}

/// After `k` cycles the focus is on the tab `k` places after the first one,
/// counted round the end.
pub proof fn lemma_cycle_position(v: TabSwitcherView, k: nat)
    requires
        unique_ids(v.tabs),
        v.current matches Some(c) && has_id(v.tabs, c),
    ensures
        cycle_times(v, k).tabs == v.tabs,
        cycle_times(v, k).current == Some(
            v.tabs[(position_of(v.tabs, v.current->Some_0) + k) % (v.tabs.len() as int)].id,
        ),
    decreases k,
{
    let c = v.current->Some_0;
    let p = position_of(v.tabs, c);
    let n = v.tabs.len() as int;
    assert(v.tabs[p].id == c);
    if k == 0 {
        vstd::arithmetic::div_mod::lemma_small_mod(p as nat, n as nat);
    } else {
        lemma_cycle_position(v, (k - 1) as nat);
        let w = cycle_times(v, (k - 1) as nat);
        let q = (p + k - 1) % n;
        assert(0 <= q < n) by {
            vstd::arithmetic::div_mod::lemma_mod_bound(p + k - 1, n);
        }
        lemma_position_of(v.tabs, v.tabs[q].id, q);
        vstd::arithmetic::div_mod::lemma_add_mod_noop_right(1, p + k - 1, n);
        assert((q + 1) % n == (p + k) % n);
    }
}

/// For a position `p` among `n` and a step `k` from 1 to `n`, `(p + k) % n`
/// is `p + k` or `p + k - n`.
proof fn lemma_mod_step(p: int, k: int, n: int)
    requires
        0 <= p < n,
        1 <= k <= n,
    ensures
        (p + k) % n == if p + k < n { p + k } else { p + k - n },
{
    if p + k < n {
        vstd::arithmetic::div_mod::lemma_small_mod((p + k) as nat, n as nat);
    } else {
        vstd::arithmetic::div_mod::lemma_mod_add_multiples_vanish(p + k - n, n);
        vstd::arithmetic::div_mod::lemma_small_mod((p + k - n) as nat, n as nat);
    }
}

/// From an open tab in focus, each of as many successive calls of
/// `cycle_tabs` as there are tabs succeeds, and together they put the focus
/// on every tab exactly once.
pub proof fn law_cycle_visits_each_tab_once(v: TabSwitcherView)
    requires
        unique_ids(v.tabs),
        v.current matches Some(c) && has_id(v.tabs, c),
    ensures
        forall|k: nat| k < v.tabs.len() ==> #[trigger] cycle_target(cycle_times(v, k)) is Some,
        forall|j: nat, k: nat|
            1 <= j < k <= v.tabs.len() ==> #[trigger] cycle_times(v, j).current != #[trigger] cycle_times(v, k).current,
        forall|i: int|
            #![trigger v.tabs[i]]
            0 <= i < v.tabs.len() ==> exists|k: nat|
                1 <= k <= v.tabs.len() && #[trigger] cycle_times(v, k).current == Some(v.tabs[i].id),
{
    let c = v.current->Some_0;
    let p = position_of(v.tabs, c);
    let n = v.tabs.len() as int;
    assert(v.tabs[p].id == c);
    assert forall|k: nat| k < v.tabs.len() implies #[trigger] cycle_target(cycle_times(v, k)) is Some by {
        lemma_cycle_position(v, k);
        let q = (p + k) % n;
        assert(0 <= q < n) by {
            vstd::arithmetic::div_mod::lemma_mod_bound(p + k, n);
        }
        assert(cycle_times(v, k).tabs[q].id == v.tabs[q].id);
    }
    assert forall|j: nat, k: nat|
        1 <= j < k <= v.tabs.len() implies #[trigger] cycle_times(v, j).current != #[trigger] cycle_times(v, k).current by {
        lemma_cycle_position(v, j);
        lemma_cycle_position(v, k);
        lemma_mod_step(p, j as int, n);
        lemma_mod_step(p, k as int, n);
        let a = (p + j) % n;
        let b = (p + k) % n;
        assert(a != b);
        assert(v.tabs[a].id != v.tabs[b].id);
    }
    assert forall|i: int| #![trigger v.tabs[i]] 0 <= i < v.tabs.len() implies exists|k: nat|
        1 <= k <= v.tabs.len() && #[trigger] cycle_times(v, k).current == Some(v.tabs[i].id) by {
        let k: nat = if i > p { (i - p) as nat } else { (i - p + n) as nat };
        lemma_cycle_position(v, k);
        lemma_mod_step(p, k as int, n);
        assert((p + k) % n == i);
        assert(cycle_times(v, k).current == Some(v.tabs[i].id));
    }
}

/// Closing a tab, when more than one is open, leaves at least one tab, never
/// the closed one, and puts the focus on a tab that is open.
pub proof fn law_close_focuses_open_tab(tabs: Seq<TabView>, id: Seq<char>)
    requires
        unique_ids(tabs),
        tabs.len() > 1,
        has_id(tabs, id),
    ensures
        ({
            let i = position_of(tabs, id);
            let rest = tabs.remove(i);
            &&& rest.len() == tabs.len() - 1
            &&& !has_id(rest, id)
            &&& has_id(rest, close_target(rest, i))
        }),
{
    let i = position_of(tabs, id);
    let rest = tabs.remove(i);
    tabs.remove_ensures(i);
    assert(tabs[i].id == id);
    if has_id(rest, id) {
        let k = choose|k: int| 0 <= k < rest.len() && #[trigger] rest[k].id == id;
        if k < i {
            assert(rest[k] == tabs[k]);
        } else {
            assert(rest[k] == tabs[k + 1]);
        }
    }
    if i < rest.len() {
        assert(rest[i].id == close_target(rest, i));
    } else {
        assert(rest[rest.len() - 1].id == close_target(rest, i));
    }
}

/// Removing a tab leaves no tab with its identifier, keeps the identifiers
/// distinct, and removing it again changes nothing.
pub proof fn law_remove_tab(tabs: Seq<TabView>, id: Seq<char>)
    requires
        unique_ids(tabs),
    ensures
        !has_id(remove_tab(tabs, id), id),
        unique_ids(remove_tab(tabs, id)),
        remove_tab(remove_tab(tabs, id), id) == remove_tab(tabs, id),
{
    if has_id(tabs, id) {
        let i = position_of(tabs, id);
        let rest = tabs.remove(i);
        tabs.remove_ensures(i);
        assert(tabs[i].id == id);
        assert forall|a: int, b: int|
            0 <= a < rest.len() && 0 <= b < rest.len() && a != b implies #[trigger] rest[a].id != #[trigger] rest[b].id by {
            let a1 = if a < i { a } else { a + 1 };
            let b1 = if b < i { b } else { b + 1 };
            assert(rest[a] == tabs[a1]);
            assert(rest[b] == tabs[b1]);
        }
        if has_id(rest, id) {
            let k = choose|k: int| 0 <= k < rest.len() && #[trigger] rest[k].id == id;
            if k < i {
                assert(rest[k] == tabs[k]);
            } else {
                assert(rest[k] == tabs[k + 1]);
            }
        }
    }
}

/// Opening a tab keeps the identifiers distinct and leaves that tab open at
/// the position its identifier is found; opening it again changes nothing.
pub proof fn law_insert_tab(tabs: Seq<TabView>, t: TabView)
    requires
        unique_ids(tabs),
    ensures
        unique_ids(insert_tab(tabs, t)),
        has_id(insert_tab(tabs, t), t.id),
        insert_tab(tabs, t)[position_of(insert_tab(tabs, t), t.id)] == t,
        insert_tab(insert_tab(tabs, t), t) == insert_tab(tabs, t),
{
    let r = insert_tab(tabs, t);
    if has_id(tabs, t.id) {
        let i = position_of(tabs, t.id);
        assert(tabs[i].id == t.id);
        assert forall|a: int, b: int|
            0 <= a < r.len() && 0 <= b < r.len() && a != b implies #[trigger] r[a].id != #[trigger] r[b].id by {
            assert(r[a].id == tabs[a].id);
            assert(r[b].id == tabs[b].id);
        }
        lemma_position_of(r, t.id, i);
        assert(r.update(i, t) =~= r);
    } else {
        let i = tabs.len() as int;
        assert forall|a: int, b: int|
            0 <= a < r.len() && 0 <= b < r.len() && a != b implies #[trigger] r[a].id != #[trigger] r[b].id by {
            if a < i && b < i {
                assert(r[a] == tabs[a]);
                assert(r[b] == tabs[b]);
            } else if a < i {
                assert(r[a] == tabs[a]);
            } else {
                assert(r[b] == tabs[b]);
            }
        }
        lemma_position_of(r, t.id, i);
        assert(r.update(i, t) =~= r);
    }
}

/// A renamed tab's title is held by no other tab.
pub proof fn law_rename_keeps_titles_distinct(tabs: Seq<TabView>, id: Seq<char>, title: Seq<char>)
    requires
        unique_ids(tabs),
        has_id(tabs, id),
        !title_taken(tabs, id, title),
    ensures
        !title_taken(tabs.update(position_of(tabs, id), TabView { id, title }), id, title),
{
    let i = position_of(tabs, id);
    let r = tabs.update(i, TabView { id, title });
    if title_taken(r, id, title) {
        let j = choose|j: int| 0 <= j < r.len() && #[trigger] r[j].id != id && r[j].title == title;
        assert(j != i);
        assert(r[j] == tabs[j]);
    }
}

/// Every tab kept when a new tab is opened has another title than the new
/// tab.
proof fn lemma_kept_tabs_titles(tabs: Seq<TabView>, keep: Seq<bool>, title: Seq<char>)
    ensures
        forall|a: int| 0 <= a < kept_tabs(tabs, keep, title).len() ==>
            (#[trigger] kept_tabs(tabs, keep, title)[a]).title != title,
        forall|a: int| 0 <= a < kept_tabs(tabs, keep, title).len() ==>
            has_id(tabs, #[trigger] kept_tabs(tabs, keep, title)[a].id),
    decreases tabs.len(),
{
    if tabs.len() > 0 && keep.len() > 0 {
        let p = tabs.drop_last();
        lemma_kept_tabs_titles(p, keep.drop_last(), title);
        let k = kept_tabs(tabs, keep, title);
        let kp = kept_tabs(p, keep.drop_last(), title);
        assert forall|a: int| 0 <= a < k.len() implies has_id(tabs, #[trigger] k[a].id) by {
            if a < kp.len() {
                assert(k[a] == kp[a]);
                let j = choose|j: int| 0 <= j < p.len() && #[trigger] p[j].id == kp[a].id;
                assert(tabs[j] == p[j]);
            } else {
                assert(k[a] == tabs[tabs.len() - 1]);
            }
        }
    }
}

/// The tabs kept when a new tab is opened are tabs that were open, in their
/// order, so their identifiers stay distinct.
proof fn lemma_kept_tabs_unique(tabs: Seq<TabView>, keep: Seq<bool>, title: Seq<char>)
    requires
        unique_ids(tabs),
    ensures
        unique_ids(kept_tabs(tabs, keep, title)),
    decreases tabs.len(),
{
    if tabs.len() > 0 && keep.len() > 0 {
        let p = tabs.drop_last();
        assert forall|i: int, j: int|
            0 <= i < p.len() && 0 <= j < p.len() && i != j implies #[trigger] p[i].id != #[trigger] p[j].id by {
            assert(p[i] == tabs[i]);
            assert(p[j] == tabs[j]);
        }
        lemma_kept_tabs_unique(p, keep.drop_last(), title);
        lemma_kept_tabs_titles(p, keep.drop_last(), title);
        let kp = kept_tabs(p, keep.drop_last(), title);
        let k = kept_tabs(tabs, keep, title);
        if keep.last() && tabs.last().title != title {
            assert forall|a: int, b: int|
                0 <= a < k.len() && 0 <= b < k.len() && a != b implies #[trigger] k[a].id != #[trigger] k[b].id by {
                if a < kp.len() && b < kp.len() {
                    assert(k[a] == kp[a]);
                    assert(k[b] == kp[b]);
                } else {
                    let c = if a < kp.len() { a } else { b };
                    assert(k[c] == kp[c]);
                    assert(has_id(p, kp[c].id));
                    let j = choose|j: int| 0 <= j < p.len() && #[trigger] p[j].id == kp[c].id;
                    assert(tabs[j] == p[j]);
                    assert(tabs[j].id != tabs[tabs.len() - 1].id);
                }
            }
        }
    }
}

/// After a new tab is opened, identifiers stay distinct, the new tab is open,
/// and no other tab has its title.
pub proof fn law_new_tab_title_unique(tabs: Seq<TabView>, keep: Seq<bool>, t: TabView)
    requires
        unique_ids(tabs),
    ensures
        unique_ids(insert_tab(kept_tabs(tabs, keep, t.title), t)),
        has_id(insert_tab(kept_tabs(tabs, keep, t.title), t), t.id),
        !title_taken(insert_tab(kept_tabs(tabs, keep, t.title), t), t.id, t.title),
{
    let k = kept_tabs(tabs, keep, t.title);
    lemma_kept_tabs_unique(tabs, keep, t.title);
    lemma_kept_tabs_titles(tabs, keep, t.title);
    law_insert_tab(k, t);
    let r = insert_tab(k, t);
    if title_taken(r, t.id, t.title) {
        let j = choose|j: int| 0 <= j < r.len() && #[trigger] r[j].id != t.id && r[j].title == t.title;
        if has_id(k, t.id) {
            let i = position_of(k, t.id);
            assert(j != i);
            assert(r[j] == k[j]);
        } else {
            assert(j < k.len());
            assert(r[j] == k[j]);
        }
    }
}

/// Saving a document leaves exactly its first recent-file entry carrying the
/// new title; saving it again under the same title changes nothing.
pub proof fn law_record_file(files: Seq<FileView>, id: Seq<char>, title: Seq<char>)
    ensures
        exists|i: int| first_with_id(record_file(files, id, title), id, i)
            && record_file(files, id, title)[i].title == title,
        record_file(record_file(files, id, title), id, title) == record_file(files, id, title),
{
    let r = record_file(files, id, title);
    let i = if exists|i: int| first_with_id(files, id, i) {
        choose|i: int| first_with_id(files, id, i)
    } else {
        files.len() as int
    };
    assert forall|j: int| 0 <= j < i implies #[trigger] r[j].id != id by {
        assert(r[j] == files[j]);
        if j < files.len() && files[j].id == id && !(exists|i: int| first_with_id(files, id, i)) {
            assert forall|m: int| 0 <= m < j implies #[trigger] files[m].id != id by {
                if files[m].id == id {
                    lemma_first_exists(files, id, m);
                }
            }
            assert(first_with_id(files, id, j));
        }
    }
    assert(first_with_id(r, id, i));
    assert forall|c: int| first_with_id(r, id, c) implies c == i by {
        if c < i {
            assert(r[c].id != id);
        }
        if i < c {
            assert(r[i].id == id);
        }
    }
    assert(r.update(i, FileView { id, title }) =~= r);
}

/// Where some entry has identifier `id`, a first one does.
proof fn lemma_first_exists(files: Seq<FileView>, id: Seq<char>, m: int)
    requires
        0 <= m < files.len(),
        files[m].id == id,
    ensures
        exists|i: int| first_with_id(files, id, i),
    decreases m,
{
    if exists|j: int| 0 <= j < m && #[trigger] files[j].id == id {
        let j = choose|j: int| 0 <= j < m && #[trigger] files[j].id == id;
        lemma_first_exists(files, id, j);
    } else {
        assert(first_with_id(files, id, m));
    }
}

/// After a document is deleted, no recent-file entry carries its identifier.
pub proof fn law_forgotten_document_absent(files: Seq<FileView>, id: Seq<char>)
    ensures
        forall|i: int| 0 <= i < without_id(files, id).len() ==> (#[trigger] without_id(files, id)[i]).id != id,
{
    assert forall|i: int| 0 <= i < without_id(files, id).len() implies (#[trigger] without_id(files, id)[i]).id != id by {
        files.lemma_filter_pred(|f: FileView| f.id != id, i);
    }
}

/// Closing the tab at position `i`, among more than one, puts the focus on
/// the tab that came right after it, or, where it was the last, on the tab
/// right before it.
pub proof fn law_close_focuses_neighbour(tabs: Seq<TabView>, i: int)
    requires
        tabs.len() > 1,
        0 <= i < tabs.len(),
    ensures
        close_target(tabs.remove(i), i) == if i + 1 < tabs.len() {
            tabs[i + 1].id
        } else {
            tabs[i - 1].id
        },
{
    tabs.remove_ensures(i);
    let rest = tabs.remove(i);
    if i + 1 < tabs.len() {
        assert(rest[i] == tabs[i + 1]);
    } else {
        assert(rest[rest.len() - 1] == tabs[i - 1]);
    }
}

/// After a rename that was not refused, no two tabs share the new title.
pub proof fn law_rename_leaves_no_shared_title(tabs: Seq<TabView>, id: Seq<char>, title: Seq<char>)
    requires
        unique_ids(tabs),
        has_id(tabs, id),
        !title_taken(tabs, id, title),
    ensures
        ({
            let r = tabs.update(position_of(tabs, id), TabView { id, title });
            forall|j: int, k: int|
                #![trigger r[j], r[k]]
                0 <= j < k < r.len() ==> !(r[j].title == title && r[k].title == title)
        }),
{
    let p = position_of(tabs, id);
    assert(tabs[p].id == id);
    let r = tabs.update(p, TabView { id, title });
    assert forall|j: int, k: int|
        #![trigger r[j], r[k]]
        0 <= j < k < r.len() implies !(r[j].title == title && r[k].title == title) by {
        let m = if j != p { j } else { k };
        if r[j].title == title && r[k].title == title {
            assert(r[m] == tabs[m]);
            assert(tabs[m].id != tabs[p].id);
            assert(tabs[m].id != id && tabs[m].title == title);
        }
    }
}

/// The former title of a saved document is the title of the tab with that
/// document's identifier.
pub proof fn law_former_title_is_own(tabs: Seq<TabView>, id: Seq<char>, j: int)
    requires
        unique_ids(tabs),
        0 <= j < tabs.len(),
        tabs[j].id == id,
    ensures
        former_title(tabs, id) == tabs[j].title,
{
    lemma_position_of(tabs, id, j);
}

/// Every tab a restored session opens is a saved tab whose document was
/// found.
pub proof fn law_restored_tabs_were_found(tabs: Seq<TabView>, loaded: Seq<Option<DocumentView>>)
    requires
        loaded.len() == tabs.len(),
    ensures
        forall|a: int|
            #![trigger loaded_tabs(tabs, loaded)[a]]
            0 <= a < loaded_tabs(tabs, loaded).len() ==> exists|k: int|
                0 <= k < tabs.len() && (#[trigger] loaded[k]) is Some
                    && loaded_tabs(tabs, loaded)[a] == tabs[k],
    decreases tabs.len(),
{
    if tabs.len() > 0 {
        let t = tabs.drop_last();
        let l = loaded.drop_last();
        law_restored_tabs_were_found(t, l);
        let r = loaded_tabs(tabs, loaded);
        let rp = loaded_tabs(t, l);
        assert forall|a: int| #![trigger r[a]] 0 <= a < r.len() implies exists|k: int|
            0 <= k < tabs.len() && (#[trigger] loaded[k]) is Some && r[a] == tabs[k] by {
            if a < rp.len() {
                assert(r[a] == rp[a]);
                let k = choose|k: int| 0 <= k < t.len() && (#[trigger] l[k]) is Some && rp[a] == t[k];
                assert(l[k] == loaded[k]);
                assert(t[k] == tabs[k]);
            } else {
                let k = tabs.len() - 1;
                assert(loaded[k] is Some);
                assert(r[a] == tabs[k]);
            }
        }
    }
}

/// Where the new tab's identifier is held by no tab open before, the new tab
/// is added after the tabs kept, which stay in their order.
pub proof fn law_new_tab_appended(tabs: Seq<TabView>, keep: Seq<bool>, t: TabView)
    requires
        !has_id(tabs, t.id),
    ensures
        insert_tab(kept_tabs(tabs, keep, t.title), t) == kept_tabs(tabs, keep, t.title).push(t),
        insert_tab(kept_tabs(tabs, keep, t.title), t).len() == kept_tabs(tabs, keep, t.title).len() + 1,
{
    lemma_kept_tabs_titles(tabs, keep, t.title);
    let k = kept_tabs(tabs, keep, t.title);
    if has_id(k, t.id) {
        let a = choose|a: int| 0 <= a < k.len() && #[trigger] k[a].id == t.id;
        assert(has_id(tabs, k[a].id));
    }
}

} // verus!
