//! The editor's state as a whole: the tab switcher and the workspace; what a
//! session saves and how it is restored; and the state changes behind saving,
//! deleting and creating documents.

use vstd::prelude::*;

use crate::model::{
    DocumentData, DocumentView, FileInfo, FileView, Tab, TabView, UserData, document_views,
    file_views, optional_document_views, tab_views,
};
use crate::names::{document_file_name, is_hyphenated_uuid, new_document_id, sanitized_from};
use crate::tabs::{
    TabSwitcher, has_id, insert_tab, kept_tabs, position_of, unique_ids,
};
use crate::workspace::{Workspace, kept_files, record_file, without_id};

verus! {

/// The tab switcher and the workspace of the editor.
pub struct AppState {
    pub tab_switcher: TabSwitcher,
    pub workspace: Workspace,
}

/// The commands the editor's front end sends about documents.
pub struct IOCommands;

/// Where a saved document goes: the file it is written to, and the file of its
/// former title where that is another file.
#[derive(Debug)]
pub struct SaveTarget {
    pub file_name: String,
    pub stale_file_name: Option<String>,
}

/// What deleting the document in focus leaves to do: remove its file, and show
/// the tab that takes the focus.
#[derive(Debug)]
pub struct DeleteOutcome {
    pub file_name: String,
    pub next_tab: Option<Tab>,
}

/// Opening each tab of `add` in turn.
pub open spec fn insert_all(tabs: Seq<TabView>, add: Seq<TabView>) -> Seq<TabView>
    decreases add.len(),
{
    if add.len() == 0 {
        tabs
    } else {
        insert_tab(insert_all(tabs, add.drop_last()), add.last())
    }
}

/// The tabs whose document was found: `loaded` has one entry per tab.
pub open spec fn loaded_tabs(tabs: Seq<TabView>, loaded: Seq<Option<DocumentView>>) -> Seq<TabView>
    decreases tabs.len(),
{
    if tabs.len() == 0 || loaded.len() == 0 {
        Seq::empty()
    } else {
        let rest = loaded_tabs(tabs.drop_last(), loaded.drop_last());
        if loaded.last() is Some {
            rest.push(tabs.last())
        } else {
            rest
        }
    }
}

/// The documents that were found, in order.
pub open spec fn loaded_documents(loaded: Seq<Option<DocumentView>>) -> Seq<DocumentView>
    decreases loaded.len(),
{
    if loaded.len() == 0 {
        Seq::empty()
    } else {
        let rest = loaded_documents(loaded.drop_last());
        match loaded.last() {
            Some(d) => rest.push(d),
            None => rest,
        }
    }
}

/// The title a document had before it was saved: that of its tab, or
/// "Untitled" where it has no tab.
pub open spec fn former_title(tabs: Seq<TabView>, id: Seq<char>) -> Seq<char> {
    if has_id(tabs, id) {
        tabs[position_of(tabs, id)].title
    } else {
        "Untitled"@
    }
}

impl AppState {
    /// An editor with no tabs, no tab in focus and no recent files.
    pub fn new() -> (r: AppState)
        ensures
            r.wf(),
            r.tab_switcher@.tabs == Seq::<TabView>::empty(),
            r.tab_switcher@.current == None::<Seq<char>>,
            r.workspace.files() == Seq::<FileView>::empty(),
    {
        let r = AppState { tab_switcher: TabSwitcher::new(), workspace: Workspace::new() };
        assert(r.workspace.files() =~= Seq::<FileView>::empty());
        r
    }

    /// The tab switcher is well formed.
    pub open spec fn wf(&self) -> bool {
        self.tab_switcher.wf()
    }

    /// What the session saves: the tabs in order, the tab in focus and the
    /// recent files. There must be a tab in focus.
    pub fn user_data(&self) -> (r: UserData)
        requires
            self.wf(),
            self.tab_switcher@.current is Some,
        ensures
            tab_views(r.tabs@) == self.tab_switcher@.tabs,
            self.tab_switcher@.current == Some(r.last_open_tab@),
            file_views(r.recent_files@) == self.workspace.files(),
    {
        let tabs = self.tab_switcher.tabs_in_order();
        let current = self.tab_switcher.current_id().unwrap();
        let recent = self.workspace.files_copy();
        UserData { tabs, last_open_tab: current, recent_files: recent }
    }

    /// Replaces the whole state with a saved session: its recent files, its
    /// tab in focus, and its tabs opened in order.
    fn apply_user_data(&mut self, user_data: UserData)
        requires
            old(self).wf(),
        ensures
            final(self).wf(),
            final(self).workspace.files() == file_views(user_data.recent_files@),
            final(self).tab_switcher@.current == Some(user_data.last_open_tab@),
            final(self).tab_switcher@.tabs == insert_all(Seq::empty(), tab_views(user_data.tabs@)),
    {
        let UserData { tabs, last_open_tab, recent_files } = user_data;
        self.workspace.replace_files(recent_files);
        self.tab_switcher.set_current(Some(last_open_tab));
        self.tab_switcher.clear();
        let n = tabs.len();
        let mut i: usize = 0;
        while i < n
            invariant
                self.wf(),
                n == tabs@.len(),
                i <= n,
                self.workspace.files() == file_views(recent_files@),
                self.tab_switcher@.current == Some(last_open_tab@),
                self.tab_switcher@.tabs == insert_all(Seq::empty(), tab_views(tabs@).take(i as int)),
            decreases n - i,
        {
            proof {
                assert(tab_views(tabs@).take(i + 1).drop_last() =~= tab_views(tabs@).take(i as int));
            }
            self.tab_switcher.insert(tabs[i].duplicate());
            i = i + 1;
        }
        assert(tab_views(tabs@).take(n as int) =~= tab_views(tabs@));
    }
}

/// Opening tabs with distinct identifiers one after the other, from none,
/// gives those tabs in that order.
pub proof fn lemma_insert_all_distinct(tabs: Seq<TabView>)
    requires
        unique_ids(tabs),
    ensures
        insert_all(Seq::empty(), tabs) == tabs,
    decreases tabs.len(),
{
    if tabs.len() > 0 {
        let p = tabs.drop_last();
        assert forall|i: int, j: int|
            0 <= i < p.len() && 0 <= j < p.len() && i != j implies #[trigger] p[i].id != #[trigger] p[j].id by {
            assert(p[i] == tabs[i]);
            assert(p[j] == tabs[j]);
        }
        lemma_insert_all_distinct(p);
        if has_id(p, tabs.last().id) {
            let k = choose|k: int| 0 <= k < p.len() && #[trigger] p[k].id == tabs.last().id;
            assert(tabs[k].id == tabs[tabs.len() - 1].id);
        }
        assert(p.push(tabs.last()) =~= tabs);
    }
}

/// Where every tab's document was found, the tabs kept are all the tabs.
pub proof fn lemma_loaded_tabs_all(tabs: Seq<TabView>, loaded: Seq<Option<DocumentView>>)
    requires
        loaded.len() == tabs.len(),
        forall|i: int| 0 <= i < loaded.len() ==> #[trigger] loaded[i] is Some,
    ensures
        loaded_tabs(tabs, loaded) == tabs,
    decreases tabs.len(),
{
    if tabs.len() > 0 {
        let l = loaded.drop_last();
        assert forall|i: int| 0 <= i < l.len() implies #[trigger] l[i] is Some by {
            assert(l[i] == loaded[i]);
        }
        lemma_loaded_tabs_all(tabs.drop_last(), l);
        assert(loaded[loaded.len() - 1] is Some);
        assert(tabs.drop_last().push(tabs.last()) =~= tabs);
    }
}

/// Restores a saved session: its recent files, its tab in focus, and, in
/// order, the tabs whose document was found; `loaded` holds, for each saved
/// tab, its document or `None` where it could not be read. Returns the
/// documents found, in order.
pub fn load_last_open_tabs(state: &mut AppState, user_data: UserData, loaded: Vec<Option<DocumentData>>) -> (r: Vec<DocumentData>)
    requires
        old(state).wf(),
        loaded@.len() == user_data.tabs@.len(),
    ensures
        final(state).wf(),
        final(state).workspace.files() == file_views(user_data.recent_files@),
        final(state).tab_switcher@.current == Some(user_data.last_open_tab@),
        final(state).tab_switcher@.tabs == insert_all(
            Seq::empty(),
            loaded_tabs(tab_views(user_data.tabs@), optional_document_views(loaded@)),
        ),
        document_views(r@) == loaded_documents(optional_document_views(loaded@)),
{
    let UserData { tabs, last_open_tab, recent_files } = user_data;
    state.workspace.replace_files(recent_files);
    state.tab_switcher.set_current(Some(last_open_tab));
    state.tab_switcher.clear();
    let ghost tv = tab_views(tabs@);
    let ghost lv = optional_document_views(loaded@);
    let mut docs: Vec<DocumentData> = Vec::new();
    let n = tabs.len();
    let mut i: usize = 0;
    while i < n
        invariant
            state.wf(),
            n == tabs@.len(),
            n == loaded@.len(),
            tv == tab_views(tabs@),
            lv == optional_document_views(loaded@),
            i <= n,
            state.workspace.files() == file_views(recent_files@),
            state.tab_switcher@.current == Some(last_open_tab@),
            state.tab_switcher@.tabs == insert_all(Seq::empty(), loaded_tabs(tv.take(i as int), lv.take(i as int))),
            document_views(docs@) == loaded_documents(lv.take(i as int)),
        decreases n - i,
    {
        let ghost before_tabs = loaded_tabs(tv.take(i as int), lv.take(i as int));
        let ghost before_docs = docs@;
        proof {
            assert(tv.take(i + 1).drop_last() =~= tv.take(i as int));
            assert(lv.take(i + 1).drop_last() =~= lv.take(i as int));
            assert(tv.take(i + 1).last() == tv[i as int]);
            assert(lv.take(i + 1).last() == lv[i as int]);
        }
        match &loaded[i] {
            Some(doc) => {
                docs.push(doc.duplicate());
                state.tab_switcher.insert(tabs[i].duplicate());
                proof {
                    assert(before_tabs.push(tv[i as int]).drop_last() =~= before_tabs);
                    assert(document_views(docs@) =~= document_views(before_docs).push(doc@));
                }
            },
            None => {},
        }
        i = i + 1;
    }
    proof {
        assert(tv.take(n as int) =~= tv);
        assert(lv.take(n as int) =~= lv);
    }
    docs
}

/// Saving and then restoring a session in which every document is found
/// again gives back the same tabs, in the same order.
pub proof fn law_session_round_trip(tabs: Seq<TabView>, loaded: Seq<Option<DocumentView>>)
    requires
        unique_ids(tabs),
        loaded.len() == tabs.len(),
        forall|i: int| 0 <= i < loaded.len() ==> #[trigger] loaded[i] is Some,
    ensures
        insert_all(Seq::empty(), loaded_tabs(tabs, loaded)) == tabs,
{
    lemma_loaded_tabs_all(tabs, loaded);
    lemma_insert_all_distinct(tabs);
}

/// Where every document was found, the documents found are all of them, in
/// order.
proof fn lemma_loaded_documents_all(loaded: Seq<Option<DocumentView>>)
    requires
        forall|i: int| 0 <= i < loaded.len() ==> #[trigger] loaded[i] is Some,
    ensures
        loaded_documents(loaded).len() == loaded.len(),
        forall|i: int| 0 <= i < loaded.len() ==> #[trigger] loaded_documents(loaded)[i] == loaded[i]->Some_0,
    decreases loaded.len(),
{
    if loaded.len() > 0 {
        let l = loaded.drop_last();
        assert forall|i: int| 0 <= i < l.len() implies #[trigger] l[i] is Some by {
            assert(l[i] == loaded[i]);
        }
        lemma_loaded_documents_all(l);
        assert(loaded[loaded.len() - 1] is Some);
        assert forall|i: int| 0 <= i < loaded.len() implies #[trigger] loaded_documents(loaded)[i] == loaded[i]->Some_0 by {
            if i < l.len() {
                assert(l[i] == loaded[i]);
            }
        }
    }
}

/// Restoring a session in which each saved tab's document is found, under
/// that tab's identifier, returns one document per tab, in the tabs' order.
pub proof fn law_restored_documents_follow_tabs(tabs: Seq<TabView>, loaded: Seq<Option<DocumentView>>)
    requires
        loaded.len() == tabs.len(),
        forall|i: int| 0 <= i < loaded.len() ==> (#[trigger] loaded[i] matches Some(d) && d.id == tabs[i].id),
    ensures
        loaded_documents(loaded).len() == tabs.len(),
        forall|i: int| 0 <= i < tabs.len() ==> #[trigger] loaded_documents(loaded)[i].id == tabs[i].id,
{
    assert forall|i: int| 0 <= i < loaded.len() implies #[trigger] loaded[i] is Some by {}
    lemma_loaded_documents_all(loaded);
    assert forall|i: int| 0 <= i < tabs.len() implies #[trigger] loaded_documents(loaded)[i].id == tabs[i].id by {
        assert(loaded[i] matches Some(d) && d.id == tabs[i].id);
    }
}

/// Records that the document `id` was saved under `title`, and names the file
/// it goes to and, where its former title had another file, that file.
pub fn save_document(state: &mut AppState, id: String, title: String) -> (r: SaveTarget)
    requires
        old(state).wf(),
    ensures
        final(state).wf(),
        final(state).tab_switcher@ == old(state).tab_switcher@,
        final(state).workspace.files() == record_file(old(state).workspace.files(), id@, title@),
        sanitized_from(title@ + ".md"@, r.file_name@),
        match r.stale_file_name {
            Some(stale) => {
                &&& sanitized_from(former_title(old(state).tab_switcher@.tabs, id@) + ".md"@, stale@)
                &&& stale@ != r.file_name@
            },
            None => sanitized_from(former_title(old(state).tab_switcher@.tabs, id@) + ".md"@, r.file_name@),
        },
{
    proof {
        reveal_strlit("Untitled");
    }
    state.workspace.record_document(&id, &title);
    let file_name = document_file_name(title.as_str());
    let old_title = match state.tab_switcher.find(id.as_str()) {
        Some(i) => state.tab_switcher.tab_at(i).title,
        None => String::from_str("Untitled"),
    };
    let old_file_name = document_file_name(old_title.as_str());
    save_target(file_name, old_file_name)
}

/// Where a document goes, given the file name of its new title and that of
/// its former title: the former file is stale where the two names differ.
pub fn save_target(file_name: String, former_file_name: String) -> (r: SaveTarget)
    ensures
        r.file_name@ == file_name@,
        r.stale_file_name == (if former_file_name@ != file_name@ {
            Some(former_file_name)
        } else {
            None
        }),
{
    if former_file_name != file_name {
        SaveTarget { file_name, stale_file_name: Some(former_file_name) }
    } else {
        SaveTarget { file_name, stale_file_name: None }
    }
}

/// Removes the document in focus: closes its tab, puts the first tab in focus
/// and drops it from the recent files. There must be a tab in focus; `None`,
/// with nothing changed, where it is not open.
pub fn delete_document(state: &mut AppState) -> (r: Option<DeleteOutcome>)
    requires
        old(state).wf(),
        old(state).tab_switcher@.current is Some,
    ensures
        final(state).wf(),
        ({
            let tabs = old(state).tab_switcher@.tabs;
            let cur = old(state).tab_switcher@.current->Some_0;
            &&& !has_id(tabs, cur) ==> {
                &&& r is None
                &&& final(state).tab_switcher@ == old(state).tab_switcher@
                &&& final(state).workspace.files() == old(state).workspace.files()
            }
            &&& has_id(tabs, cur) ==> {
                &&& r matches Some(o) && {
                    &&& sanitized_from(tabs[position_of(tabs, cur)].title + ".md"@, o.file_name@)
                    &&& o.next_tab matches Some(t) && t@ == tabs[0]
                }
                &&& final(state).tab_switcher@.tabs == tabs.remove(position_of(tabs, cur))
                &&& final(state).tab_switcher@.current == Some(tabs[0].id)
                &&& final(state).workspace.files() == without_id(old(state).workspace.files(), cur)
            }
        }),
{
    let cur = state.tab_switcher.current_id().unwrap();
    match state.tab_switcher.find(cur.as_str()) {
        None => None,
        Some(i) => {
            let title = state.tab_switcher.tab_at(i).title;
            let next = state.tab_switcher.tab_at(0);
            let _ = state.tab_switcher.remove(cur.as_str());
            state.tab_switcher.set_current(Some(next.id.clone()));
            state.workspace.forget_document(&cur);
            let file_name = document_file_name(title.as_str());
            Some(DeleteOutcome { file_name, next_tab: Some(next) })
        },
    }
}

/// Opens a new tab `new_id` titled `title`: first drops the tabs and recent
/// files whose file is gone (their flag in `tab_files_exist` or
/// `recent_files_exist` is not set) or whose title is `title`; then opens the
/// tab, adds it to the recent files as "Untitled" and puts it in focus.
pub fn open_new_tab(
    state: &mut AppState,
    new_id: String,
    title: String,
    tab_files_exist: &Vec<bool>,
    recent_files_exist: &Vec<bool>,
) -> (r: Tab)
    requires
        old(state).wf(),
        tab_files_exist@.len() == old(state).tab_switcher@.tabs.len(),
        recent_files_exist@.len() == old(state).workspace.files().len(),
    ensures
        final(state).wf(),
        r@ == (TabView { id: new_id@, title: title@ }),
        final(state).tab_switcher@.tabs == insert_tab(
            kept_tabs(old(state).tab_switcher@.tabs, tab_files_exist@, title@),
            r@,
        ),
        final(state).workspace.files() == kept_files(
            old(state).workspace.files(),
            recent_files_exist@,
            title@,
        ).push(FileView { id: new_id@, title: "Untitled"@ }),
        final(state).tab_switcher@.current == Some(new_id@),
{
    proof {
        reveal_strlit("Untitled");
    }
    state.tab_switcher.retain_flagged(tab_files_exist, &title);
    state.workspace.retain_flagged(recent_files_exist, &title);
    let tab = Tab::new(new_id.clone(), title);
    state.tab_switcher.insert(tab.duplicate());
    state.workspace.push_file(FileInfo::new(new_id.clone(), String::from_str("Untitled")));
    state.tab_switcher.set_current(Some(new_id));
    tab
}

/// Opens a new tab titled `title` under a fresh random identifier, as
/// `open_new_tab` does.
pub fn new_tab(state: &mut AppState, title: String, tab_files_exist: &Vec<bool>, recent_files_exist: &Vec<bool>) -> (r: Tab)
    requires
        old(state).wf(),
        tab_files_exist@.len() == old(state).tab_switcher@.tabs.len(),
        recent_files_exist@.len() == old(state).workspace.files().len(),
    ensures
        final(state).wf(),
        is_hyphenated_uuid(r.id@),
        r.title@ == title@,
        final(state).tab_switcher@.tabs == insert_tab(
            kept_tabs(old(state).tab_switcher@.tabs, tab_files_exist@, title@),
            r@,
        ),
        final(state).workspace.files() == kept_files(
            old(state).workspace.files(),
            recent_files_exist@,
            title@,
        ).push(FileView { id: r.id@, title: "Untitled"@ }),
        final(state).tab_switcher@.current == Some(r.id@),
{
    let new_id = new_document_id();
    open_new_tab(state, new_id, title, tab_files_exist, recent_files_exist)
}

impl IOCommands {
    /// Saves a document sent by the front end: as `save_document` does for
    /// its identifier and title; nothing where no document came.
    pub fn save_document(state: &mut AppState, document: Option<DocumentData>) -> (r: Option<SaveTarget>)
        requires
            old(state).wf(),
        ensures
            final(state).wf(),
            final(state).tab_switcher@ == old(state).tab_switcher@,
            match document {
                None => r is None && final(state).workspace.files() == old(state).workspace.files(),
                Some(d) => r matches Some(t) && {
                    &&& final(state).workspace.files() == record_file(old(state).workspace.files(), d.id@, d.title@)
                    &&& sanitized_from(d.title@ + ".md"@, t.file_name@)
                    &&& match t.stale_file_name {
                        Some(stale) => {
                            &&& sanitized_from(former_title(old(state).tab_switcher@.tabs, d.id@) + ".md"@, stale@)
                            &&& stale@ != t.file_name@
                        },
                        None => sanitized_from(
                            former_title(old(state).tab_switcher@.tabs, d.id@) + ".md"@,
                            t.file_name@,
                        ),
                    }
                },
            },
    {
        match document {
            None => None,
            Some(d) => Some(save_document(state, d.id, d.title)),
        }
    }

    /// Deletes the document in focus, as `delete_document` does.
    pub fn delete_document(state: &mut AppState) -> (r: Option<DeleteOutcome>)
        requires
            old(state).wf(),
            old(state).tab_switcher@.current is Some,
        ensures
            final(state).wf(),
            ({
                let tabs = old(state).tab_switcher@.tabs;
                let cur = old(state).tab_switcher@.current->Some_0;
                &&& !has_id(tabs, cur) ==> {
                    &&& r is None
                    &&& final(state).tab_switcher@ == old(state).tab_switcher@
                    &&& final(state).workspace.files() == old(state).workspace.files()
                }
                &&& has_id(tabs, cur) ==> {
                    &&& r matches Some(o) && {
                        &&& sanitized_from(tabs[position_of(tabs, cur)].title + ".md"@, o.file_name@)
                        &&& o.next_tab matches Some(t) && t@ == tabs[0]
                    }
                    &&& final(state).tab_switcher@.tabs == tabs.remove(position_of(tabs, cur))
                    &&& final(state).tab_switcher@.current == Some(tabs[0].id)
                    &&& final(state).workspace.files() == without_id(old(state).workspace.files(), cur)
                }
            }),
    {
        delete_document(state)
    }

    /// Restores a saved session without reading any document: its recent
    /// files, its tab in focus and all its tabs in order; nothing where no
    /// session could be read.
    pub fn load_last_open_tabs(state: &mut AppState, user_data: Option<UserData>)
        requires
            old(state).wf(),
        ensures
            final(state).wf(),
            match user_data {
                None => {
                    &&& final(state).tab_switcher@ == old(state).tab_switcher@
                    &&& final(state).workspace.files() == old(state).workspace.files()
                },
                Some(u) => {
                    &&& final(state).workspace.files() == file_views(u.recent_files@)
                    &&& final(state).tab_switcher@.current == Some(u.last_open_tab@)
                    &&& final(state).tab_switcher@.tabs == insert_all(Seq::empty(), tab_views(u.tabs@))
                },
            },
    {
        match user_data {
            None => {},
            Some(u) => state.apply_user_data(u),
        }
    }
}

} // verus!
