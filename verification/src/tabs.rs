//! The tab switcher: the open tabs in their order, keyed by identifier, and
//! the identifier of the tab in focus; with the operations that open, rename,
//! close and cycle through tabs.

use indexmap::IndexMap;
use vstd::prelude::*;

use crate::model::{Tab, TabView, tab_views};
use crate::tab_map::{tab_entries, tab_map_clear, tab_map_get_full, tab_map_get_index, tab_map_insert_full, tab_map_len, tab_map_new, tab_map_shift_remove_full};

verus! {

/// What a tab switcher stands for: the tabs in order and the identifier of the
/// tab in focus, if any.
pub struct TabSwitcherView {
    pub tabs: Seq<TabView>,
    pub current: Option<Seq<char>>,
}

/// No two tabs share an identifier.
pub open spec fn unique_ids(tabs: Seq<TabView>) -> bool {
    forall|i: int, j: int|
        #![trigger tabs[i], tabs[j]]
        0 <= i < tabs.len() && 0 <= j < tabs.len() && i != j ==> tabs[i].id != tabs[j].id
}

/// Some tab has the identifier `id`.
pub open spec fn has_id(tabs: Seq<TabView>, id: Seq<char>) -> bool {
    exists|i: int| 0 <= i < tabs.len() && #[trigger] tabs[i].id == id
}

/// The position of the tab with identifier `id`, or -1 where there is none.
pub open spec fn position_of(tabs: Seq<TabView>, id: Seq<char>) -> int {
    if has_id(tabs, id) {
        choose|i: int| 0 <= i < tabs.len() && #[trigger] tabs[i].id == id
    } else {
        -1
    }
}

/// Opening `t`: a tab with the same identifier is replaced in place, otherwise
/// `t` goes last.
pub open spec fn insert_tab(tabs: Seq<TabView>, t: TabView) -> Seq<TabView> {
    if has_id(tabs, t.id) {
        tabs.update(position_of(tabs, t.id), t)
    } else {
        tabs.push(t)
    }
}

/// Removing the tab with identifier `id`, the later tabs moving up one place.
pub open spec fn remove_tab(tabs: Seq<TabView>, id: Seq<char>) -> Seq<TabView> {
    if has_id(tabs, id) {
        tabs.remove(position_of(tabs, id))
    } else {
        tabs
    }
}

/// The tabs whose flag in `keep` is set and whose title differs from `title`,
/// in their order; `keep` has one flag per tab.
pub open spec fn kept_tabs(tabs: Seq<TabView>, keep: Seq<bool>, title: Seq<char>) -> Seq<TabView>
    decreases tabs.len(),
{
    if tabs.len() == 0 || keep.len() == 0 {
        Seq::empty()
    } else {
        let rest = kept_tabs(tabs.drop_last(), keep.drop_last(), title);
        if keep.last() && tabs.last().title != title {
            rest.push(tabs.last())
        } else {
            rest
        }
    }
}

/// With unique identifiers, the tab at `i` is the one `position_of` finds.
pub proof fn lemma_position_of(tabs: Seq<TabView>, id: Seq<char>, i: int)
    requires
        unique_ids(tabs),
        0 <= i < tabs.len(),
        tabs[i].id == id,
    ensures
        has_id(tabs, id),
        position_of(tabs, id) == i,
{
    assert(tabs[i].id == id);
    let p = position_of(tabs, id);
    assert(tabs[p].id == id);
}

/// How one map entry appears as a tab.
pub open spec fn entry_view(e: (Seq<char>, Seq<char>, Seq<char>)) -> TabView {
    TabView { id: e.1, title: e.2 }
}

/// The open tabs, in order, keyed by identifier, and the tab in focus.
pub struct TabSwitcher {
    tabs: IndexMap<String, Tab>,
    current_tab_id: Option<String>,
}

impl View for TabSwitcher {
    type V = TabSwitcherView;

    closed spec fn view(&self) -> TabSwitcherView {
        TabSwitcherView {
            tabs: tab_entries(self.tabs).map_values(|e: (Seq<char>, Seq<char>, Seq<char>)| entry_view(e)),
            current: match self.current_tab_id {
                Some(s) => Some(s@),
                None => None,
            },
        }
    }
}

impl TabSwitcher {
    /// Each entry is keyed by its tab's identifier, and no key occurs twice.
    pub closed spec fn wf(&self) -> bool {
        let e = tab_entries(self.tabs);
        &&& forall|i: int| #![trigger e[i]] 0 <= i < e.len() ==> e[i].0 == e[i].1
        &&& forall|i: int, j: int|
            #![trigger e[i], e[j]]
            0 <= i < e.len() && 0 <= j < e.len() && i != j ==> e[i].0 != e[j].0
    }

    /// A well-formed switcher holds no two tabs with one identifier.
    pub proof fn lemma_wf(&self)
        requires
            self.wf(),
        ensures
            unique_ids(self@.tabs),
    {
        let e = tab_entries(self.tabs);
        assert forall|i: int, j: int|
            0 <= i < self@.tabs.len() && 0 <= j < self@.tabs.len() && i != j
            implies #[trigger] self@.tabs[i].id != #[trigger] self@.tabs[j].id by {
            assert(e[i].0 == e[i].1);
            assert(e[j].0 == e[j].1);
        }
    }

    /// A switcher with no tabs and none in focus.
    pub fn new() -> (r: TabSwitcher)
        ensures
            r.wf(),
            r@.tabs == Seq::<TabView>::empty(),
            r@.current == None::<Seq<char>>,
    {
        let r = TabSwitcher { tabs: tab_map_new(), current_tab_id: None };
        assert(r@.tabs =~= Seq::<TabView>::empty());
        r
    }

    /// The number of open tabs.
    pub fn tab_count(&self) -> (n: usize)
        requires
            self.wf(),
        ensures
            n == self@.tabs.len(),
    {
        tab_map_len(&self.tabs)
    }

    /// The position of the tab with identifier `id`, if there is one.
    pub fn find(&self, id: &str) -> (r: Option<usize>)
        requires
            self.wf(),
        ensures
            match r {
                Some(i) => {
                    &&& i < self@.tabs.len()
                    &&& self@.tabs[i as int].id == id@
                    &&& has_id(self@.tabs, id@)
                    &&& position_of(self@.tabs, id@) == i
                },
                None => !has_id(self@.tabs, id@),
            },
    {
        proof {
            self.lemma_wf();
        }
        let ghost e = tab_entries(self.tabs);
        match tab_map_get_full(&self.tabs, id) {
            Some((i, _k, _v)) => {
                proof {
                    assert(self@.tabs[i as int] == entry_view(e[i as int]));
                    assert(e[i as int].0 == e[i as int].1);
                    lemma_position_of(self@.tabs, id@, i as int);
                }
                Some(i)
            },
            None => {
                proof {
                    if has_id(self@.tabs, id@) {
                        let j = choose|j: int| 0 <= j < self@.tabs.len() && #[trigger] self@.tabs[j].id == id@;
                        assert(self@.tabs[j] == entry_view(e[j]));
                        assert(e[j].0 == e[j].1);
                    }
                }
                None
            },
        }
    }

    /// A copy of the tab at position `i`.
    pub fn tab_at(&self, i: usize) -> (t: Tab)
        requires
            self.wf(),
            i < self@.tabs.len(),
        ensures
            t@ == self@.tabs[i as int],
    {
        proof {
            self.lemma_wf();
        }
        let ghost e = tab_entries(self.tabs);
        let (_k, v) = tab_map_get_index(&self.tabs, i).unwrap();
        proof {
            assert(self@.tabs[i as int] == entry_view(e[i as int]));
        }
        v.duplicate()
    }

    /// The identifier of the tab in focus, if any.
    pub fn current_id(&self) -> (r: Option<String>)
        ensures
            match r {
                Some(s) => self@.current == Some(s@),
                None => self@.current == None::<Seq<char>>,
            },
    {
        match &self.current_tab_id {
            Some(s) => Some(s.clone()),
            None => None,
        }
    }

    /// Puts the tab with identifier `id` in focus, or none.
    pub fn set_current(&mut self, id: Option<String>)
        requires
            old(self).wf(),
        ensures
            final(self).wf(),
            final(self)@.tabs == old(self)@.tabs,
            final(self)@.current == match id {
                Some(s) => Some(s@),
                None => None::<Seq<char>>,
            },
    {
        self.current_tab_id = id;
    }

    /// All open tabs, in order.
    pub fn tabs_in_order(&self) -> (r: Vec<Tab>)
        requires
            self.wf(),
        ensures
            tab_views(r@) == self@.tabs,
    {
        let n = self.tab_count();
        let mut r: Vec<Tab> = Vec::new();
        let mut i: usize = 0;
        while i < n
            invariant
                self.wf(),
                n == self@.tabs.len(),
                i <= n,
                r@.len() == i,
                tab_views(r@) == self@.tabs.subrange(0, i as int),
            decreases n - i,
        {
            let t = self.tab_at(i);
            let ghost prev = r@;
            r.push(t);
            assert forall|k: int| 0 <= k < i + 1 implies #[trigger] tab_views(r@)[k] == self@.tabs[k] by {
                if k < i {
                    assert(r@[k] == prev[k]);
                    assert(tab_views(prev)[k] == self@.tabs.subrange(0, i as int)[k]);
                }
            }
            assert(tab_views(r@) =~= self@.tabs.subrange(0, i + 1));
            i = i + 1;
        }
        assert(self@.tabs.subrange(0, n as int) =~= self@.tabs);
        r
    }

    /// Opens `tab`: a tab with the same identifier is replaced in place,
    /// otherwise `tab` goes last. The tab in focus does not change.
    pub fn insert(&mut self, tab: Tab)
        requires
            old(self).wf(),
        ensures
            final(self).wf(),
            final(self)@.tabs == insert_tab(old(self)@.tabs, tab@),
            final(self)@.current == old(self)@.current,
    {
        proof {
            self.lemma_wf();
        }
        let ghost t = tab@;
        let ghost old_view = self@.tabs;
        let ghost old_e = tab_entries(self.tabs);
        let key = tab.id.clone();
        let (i, prev) = tab_map_insert_full(&mut self.tabs, key, tab);
        let ghost e = tab_entries(self.tabs);
        proof {
            match prev {
                Some(_) => {
                    assert(old_view[i as int] == entry_view(old_e[i as int]));
                    assert(old_e[i as int].0 == old_e[i as int].1);
                    lemma_position_of(old_view, t.id, i as int);
                    assert(self@.tabs =~= old_view.update(i as int, t));
                },
                None => {
                    if has_id(old_view, t.id) {
                        let j = choose|j: int| 0 <= j < old_view.len() && #[trigger] old_view[j].id == t.id;
                        assert(old_view[j] == entry_view(old_e[j]));
                        assert(old_e[j].0 == old_e[j].1);
                    }
                    assert(self@.tabs =~= old_view.push(t));
                },
            }
            assert forall|a: int| #![trigger e[a]] 0 <= a < e.len() implies e[a].0 == e[a].1 by {
                if a < old_e.len() && (prev is None || a != i) {
                    assert(e[a] == old_e[a]);
                }
            }
            assert forall|a: int, b: int|
                #![trigger e[a], e[b]]
                0 <= a < e.len() && 0 <= b < e.len() && a != b implies e[a].0 != e[b].0 by {
                if a < old_e.len() {
                    assert(e[a].0 == old_e[a].0);
                }
                if b < old_e.len() {
                    assert(e[b].0 == old_e[b].0);
                }
            }
        }
    }

    /// Removes the tab with identifier `id`, if there is one, returning its
    /// former position and the tab. The tab in focus does not change.
    pub fn remove(&mut self, id: &str) -> (r: Option<(usize, Tab)>)
        requires
            old(self).wf(),
        ensures
            final(self).wf(),
            final(self)@.current == old(self)@.current,
            final(self)@.tabs == remove_tab(old(self)@.tabs, id@),
            match r {
                Some((i, t)) => {
                    &&& has_id(old(self)@.tabs, id@)
                    &&& position_of(old(self)@.tabs, id@) == i
                    &&& t@ == old(self)@.tabs[i as int]
                },
                None => !has_id(old(self)@.tabs, id@),
            },
    {
        proof {
            self.lemma_wf();
        }
        let ghost old_view = self@.tabs;
        let ghost old_e = tab_entries(self.tabs);
        let res = tab_map_shift_remove_full(&mut self.tabs, id);
        let ghost e = tab_entries(self.tabs);
        match res {
            Some((i, _k, v)) => {
                proof {
                    assert(old_view[i as int] == entry_view(old_e[i as int]));
                    assert(old_e[i as int].0 == old_e[i as int].1);
                    lemma_position_of(old_view, id@, i as int);
                    old_e.remove_ensures(i as int);
                    old_view.remove_ensures(i as int);
                    assert(self@.tabs =~= old_view.remove(i as int));
                    assert forall|a: int| #![trigger e[a]] 0 <= a < e.len() implies e[a].0 == e[a].1 by {
                        if a < i {
                            assert(e[a] == old_e[a]);
                        } else {
                            assert(e[a] == old_e[a + 1]);
                        }
                    }
                    assert forall|a: int, b: int|
                        #![trigger e[a], e[b]]
                        0 <= a < e.len() && 0 <= b < e.len() && a != b implies e[a].0 != e[b].0 by {
                        let a1 = if a < i { a } else { a + 1 };
                        let b1 = if b < i { b } else { b + 1 };
                        assert(e[a] == old_e[a1]);
                        assert(e[b] == old_e[b1]);
                    }
                }
                Some((i, v))
            },
            None => {
                proof {
                    if has_id(old_view, id@) {
                        let j = choose|j: int| 0 <= j < old_view.len() && #[trigger] old_view[j].id == id@;
                        assert(old_view[j] == entry_view(old_e[j]));
                        assert(old_e[j].0 == old_e[j].1);
                    }
                }
                None
            },
        }
    }

    /// Keeps the tabs whose flag in `keep` is set and whose title is not
    /// `title`, in their order. The tab in focus does not change.
    pub fn retain_flagged(&mut self, keep: &Vec<bool>, title: &String)
        requires
            old(self).wf(),
            keep@.len() == old(self)@.tabs.len(),
        ensures
            final(self).wf(),
            final(self)@.tabs == kept_tabs(old(self)@.tabs, keep@, title@),
            final(self)@.current == old(self)@.current,
    {
        proof {
            self.lemma_wf();
        }
        let n = self.tab_count();
        let mut kept = TabSwitcher::new();
        let mut i: usize = 0;
        while i < n
            invariant
                self.wf(),
                kept.wf(),
                unique_ids(self@.tabs),
                n == self@.tabs.len(),
                keep@.len() == n,
                i <= n,
                kept@.tabs == kept_tabs(self@.tabs.take(i as int), keep@.take(i as int), title@),
                forall|a: int| 0 <= a < kept@.tabs.len() ==> has_id(self@.tabs.take(i as int), #[trigger] kept@.tabs[a].id),
            decreases n - i,
        {
            let t = self.tab_at(i);
            let ghost before = kept@.tabs;
            let ghost tabs_i = self@.tabs.take(i as int);
            let ghost tabs_i1 = self@.tabs.take(i + 1);
            proof {
                assert(tabs_i1.drop_last() =~= tabs_i);
                assert(keep@.take(i + 1).drop_last() =~= keep@.take(i as int));
                assert(tabs_i1.last() == self@.tabs[i as int]);
                assert(keep@.take(i + 1).last() == keep@[i as int]);
            }
            if keep[i] && t.title != *title {
                proof {
                    if has_id(before, t@.id) {
                        let a = choose|a: int| 0 <= a < before.len() && #[trigger] before[a].id == t@.id;
                        assert(has_id(tabs_i, before[a].id));
                        let k = choose|k: int| 0 <= k < tabs_i.len() && #[trigger] tabs_i[k].id == before[a].id;
                        assert(self@.tabs[k].id == self@.tabs[i as int].id);
                    }
                }
                kept.insert(t);
                proof {
                    assert(kept@.tabs == before.push(self@.tabs[i as int]));
                    assert forall|a: int| 0 <= a < kept@.tabs.len() implies has_id(tabs_i1, #[trigger] kept@.tabs[a].id) by {
                        if a < before.len() {
                            assert(kept@.tabs[a] == before[a]);
                            let k = choose|k: int| 0 <= k < tabs_i.len() && #[trigger] tabs_i[k].id == before[a].id;
                            assert(tabs_i1[k] == tabs_i[k]);
                        } else {
                            assert(tabs_i1[i as int] == self@.tabs[i as int]);
                        }
                    }
                }
            } else {
                proof {
                    assert forall|a: int| 0 <= a < kept@.tabs.len() implies has_id(tabs_i1, #[trigger] kept@.tabs[a].id) by {
                        let k = choose|k: int| 0 <= k < tabs_i.len() && #[trigger] tabs_i[k].id == kept@.tabs[a].id;
                        assert(tabs_i1[k] == tabs_i[k]);
                    }
                }
            }
            i = i + 1;
        }
        proof {
            assert(self@.tabs.take(n as int) =~= self@.tabs);
            assert(keep@.take(n as int) =~= keep@);
        }
        self.tabs = kept.tabs;
    }

    /// Removes every tab. The tab in focus does not change.
    pub fn clear(&mut self)
        requires
            old(self).wf(),
        ensures
            final(self).wf(),
            final(self)@.tabs == Seq::<TabView>::empty(),
            final(self)@.current == old(self)@.current,
    {
        tab_map_clear(&mut self.tabs);
        assert(self@.tabs =~= Seq::<TabView>::empty());
    }
}

/// The identifier `cycle_tabs` moves the focus to: the tab after the one in
/// focus, the first after the last; none where there are no tabs or the tab in
/// focus is not open.
pub open spec fn cycle_target(v: TabSwitcherView) -> Option<Seq<char>> {
    match v.current {
        Some(c) => if v.tabs.len() > 0 && has_id(v.tabs, c) {
            Some(v.tabs[(position_of(v.tabs, c) + 1) % (v.tabs.len() as int)].id)
        } else {
            None
        },
        None => None,
    }
}

/// The switcher after `cycle_tabs`: the focus moved to the cycle target, or
/// unchanged where there is none.
pub open spec fn after_cycle(v: TabSwitcherView) -> TabSwitcherView {
    match cycle_target(v) {
        Some(next) => TabSwitcherView { tabs: v.tabs, current: Some(next) },
        None => v,
    }
}

/// The switcher after `k` calls of `cycle_tabs`.
pub open spec fn cycle_times(v: TabSwitcherView, k: nat) -> TabSwitcherView
    decreases k,
{
    if k == 0 {
        v
    } else {
        after_cycle(cycle_times(v, (k - 1) as nat))
    }
}

/// The tab that takes the focus after the tab at position `i` was closed,
/// `rest` being the tabs left: the one now at position `i`, or the last one.
pub open spec fn close_target(rest: Seq<TabView>, i: int) -> Seq<char> {
    if i < rest.len() {
        rest[i].id
    } else {
        rest.last().id
    }
}

/// Some tab other than the one with identifier `id` has the title `title`.
pub open spec fn title_taken(tabs: Seq<TabView>, id: Seq<char>, title: Seq<char>) -> bool {
    exists|j: int| 0 <= j < tabs.len() && #[trigger] tabs[j].id != id && tabs[j].title == title
}

/// Puts the tab with identifier `id` in focus.
pub fn send_current_open_tab(ts: &mut TabSwitcher, id: String)
    requires
        old(ts).wf(),
    ensures
        final(ts).wf(),
        final(ts)@.tabs == old(ts)@.tabs,
        final(ts)@.current == Some(id@),
{
    ts.set_current(Some(id));
}

/// The identifier of the tab in focus; the empty string when no tab was ever
/// put in focus.
pub fn get_current_open_tab(ts: &TabSwitcher) -> (r: Result<String, String>)
    ensures
        match r {
            Ok(s) => match ts@.current {
                Some(c) => s@ == c,
                None => s@ == Seq::<char>::empty(),
            },
            Err(_) => false,
        },
{
    match ts.current_id() {
        Some(s) => Ok(s),
        None => Ok(String::new()),
    }
}

/// All open tabs, in their order.
pub fn get_tabs(ts: &TabSwitcher) -> (r: Result<Vec<Tab>, String>)
    requires
        ts.wf(),
    ensures
        match r {
            Ok(v) => tab_views(v@) == ts@.tabs,
            Err(_) => false,
        },
{
    Ok(ts.tabs_in_order())
}

/// Opens the tab `id` with title `title`: an open tab with that identifier is
/// replaced in place, otherwise the new tab goes last. Returns the tab.
pub fn load_tab(ts: &mut TabSwitcher, id: String, title: String) -> (r: Result<Tab, String>)
    requires
        old(ts).wf(),
    ensures
        final(ts).wf(),
        final(ts)@.current == old(ts)@.current,
        final(ts)@.tabs == insert_tab(old(ts)@.tabs, TabView { id: id@, title: title@ }),
        match r {
            Ok(t) => t@ == (TabView { id: id@, title: title@ }),
            Err(_) => false,
        },
{
    let new_tab = Tab::new(id, title);
    let stored = new_tab.duplicate();
    ts.insert(stored);
    Ok(new_tab)
}

/// Renames the tab `id` to `title`, keeping its place. Refused where another
/// tab already has that title, or where no tab has the identifier `id`.
pub fn update_tab_title(ts: &mut TabSwitcher, id: String, title: String) -> (r: Result<Tab, String>)
    requires
        old(ts).wf(),
    ensures
        final(ts).wf(),
        final(ts)@.current == old(ts)@.current,
        title_taken(old(ts)@.tabs, id@, title@) ==> {
            &&& r is Err
            &&& r->Err_0@ == "A tab with this title already exists"@
            &&& final(ts)@.tabs == old(ts)@.tabs
        },
        !title_taken(old(ts)@.tabs, id@, title@) && !has_id(old(ts)@.tabs, id@) ==> {
            &&& r is Err
            &&& r->Err_0@ == "Tab not found"@
            &&& final(ts)@.tabs == old(ts)@.tabs
        },
        !title_taken(old(ts)@.tabs, id@, title@) && has_id(old(ts)@.tabs, id@) ==> {
            &&& r is Ok
            &&& r->Ok_0@ == (TabView { id: id@, title: title@ })
            &&& final(ts)@.tabs == old(ts)@.tabs.update(
                position_of(old(ts)@.tabs, id@),
                TabView { id: id@, title: title@ },
            )
        },
{
    let n = ts.tab_count();
    let mut j: usize = 0;
    while j < n
        invariant
            ts.wf(),
            n == ts@.tabs.len(),
            j <= n,
            forall|k: int| 0 <= k < j ==> !(#[trigger] ts@.tabs[k].id != id@ && ts@.tabs[k].title == title@),
        decreases n - j,
    {
        let t = ts.tab_at(j);
        if t.id != id && t.title == title {
            assert(ts@.tabs[j as int].id != id@ && ts@.tabs[j as int].title == title@);
            return Err(String::from_str("A tab with this title already exists"));
        }
        j = j + 1;
    }
    match ts.find(id.as_str()) {
        Some(i) => {
            let mut t = ts.tab_at(i);
            t.title = title;
            let stored = t.duplicate();
            proof {
                ts.lemma_wf();
                lemma_position_of(ts@.tabs, id@, i as int);
            }
            ts.insert(stored);
            Ok(t)
        },
        None => Err(String::from_str("Tab not found")),
    }
}

/// Moves the focus to the next tab in order, from the last back to the first,
/// and returns its identifier. Refused where there are no tabs, or where the
/// tab in focus is not open.
pub fn cycle_tabs(ts: &mut TabSwitcher) -> (r: Result<String, String>)
    requires
        old(ts).wf(),
    ensures
        final(ts).wf(),
        final(ts)@.tabs == old(ts)@.tabs,
        final(ts)@ == after_cycle(old(ts)@),
        match r {
            Ok(next) => {
                &&& cycle_target(old(ts)@) == Some(next@)
                &&& final(ts)@.current == Some(next@)
            },
            Err(e) => {
                &&& cycle_target(old(ts)@) is None
                &&& final(ts)@.current == old(ts)@.current
                &&& e@ == if old(ts)@.tabs.len() == 0 {
                    "No tabs available"@
                } else {
                    "Failed to cycle tabs"@
                }
            },
        },
{
    let n = ts.tab_count();
    if n == 0 {
        return Err(String::from_str("No tabs available"));
    }
    match ts.current_id() {
        Some(cur) => match ts.find(cur.as_str()) {
            Some(i) => {
                let next = ts.tab_at((i + 1) % n);
                let id = next.id.clone();
                ts.set_current(Some(next.id));
                Ok(id)
            },
            None => Err(String::from_str("Failed to cycle tabs")),
        },
        None => Err(String::from_str("Failed to cycle tabs")),
    }
}

/// Removes the tab `id`, if it is open. The tab in focus does not change.
pub fn delete_tab(ts: &mut TabSwitcher, id: String) -> (r: Result<(), String>)
    requires
        old(ts).wf(),
    ensures
        final(ts).wf(),
        final(ts)@.current == old(ts)@.current,
        final(ts)@.tabs == remove_tab(old(ts)@.tabs, id@),
        r is Ok,
{
    let _ = ts.remove(id.as_str());
    Ok(())
}

/// Closes the tab `id` and moves the focus to the tab that took its place, or
/// to the last tab; returns that tab's identifier. The last open tab is never
/// closed (the answer is then `None`); closing a tab that is not open is refused.
pub fn close_tab(ts: &mut TabSwitcher, id: String) -> (r: Result<Option<String>, String>)
    requires
        old(ts).wf(),
    ensures
        final(ts).wf(),
        old(ts)@.tabs.len() <= 1 ==> {
            &&& r == Ok::<Option<String>, String>(None)
            &&& final(ts)@.tabs == old(ts)@.tabs
            &&& final(ts)@.current == old(ts)@.current
        },
        old(ts)@.tabs.len() > 1 && !has_id(old(ts)@.tabs, id@) ==> {
            &&& r is Err
            &&& r->Err_0@ == "Tab not found"@
            &&& final(ts)@.tabs == old(ts)@.tabs
            &&& final(ts)@.current == old(ts)@.current
        },
        old(ts)@.tabs.len() > 1 && has_id(old(ts)@.tabs, id@) ==> {
            let rest = old(ts)@.tabs.remove(position_of(old(ts)@.tabs, id@));
            let next = close_target(rest, position_of(old(ts)@.tabs, id@));
            &&& final(ts)@.tabs == rest
            &&& final(ts)@.current == Some(next)
            &&& r matches Ok(Some(s)) && s@ == next
        },
{
    let n = ts.tab_count();
    if n <= 1 {
        return Ok(None);
    }
    match ts.remove(id.as_str()) {
        Some((i, _t)) => {
            let m = ts.tab_count();
            let next = if i < m {
                ts.tab_at(i)
            } else {
                ts.tab_at(m - 1)
            };
            let next_id = next.id.clone();
            ts.set_current(Some(next.id));
            Ok(Some(next_id))
        },
        None => Err(String::from_str("Tab not found")),
    }
}

} // verus!
