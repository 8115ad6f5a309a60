//! The plain records the editor keeps: tabs, recent files, documents and the
//! saved user session, each with its mathematical view.

use vstd::prelude::*;

verus! {

/// A document tab: the document's identifier and the title shown for it.
#[derive(Clone, Debug, PartialEq, Eq)]
pub struct Tab {
    pub id: String,
    pub title: String,
}

/// What a tab stands for: its identifier and its title as character sequences.
pub struct TabView {
    pub id: Seq<char>,
    pub title: Seq<char>,
}

impl View for Tab {
    type V = TabView;

    open spec fn view(&self) -> TabView {
        TabView { id: self.id@, title: self.title@ }
    }
}

impl Tab {
    /// A tab with the given identifier and title.
    pub fn new(id: String, title: String) -> (r: Tab)
        ensures
            r.id == id,
            r.title == title,
    {
        Tab { id, title }
    }

    /// A copy of this tab.
    pub fn duplicate(&self) -> (r: Tab)
        ensures
            r@ == self@,
    {
        Tab { id: self.id.clone(), title: self.title.clone() }
    }
}

/// An entry of the recent-files list: a document's identifier and title.
#[derive(Clone, Debug, PartialEq, Eq)]
pub struct FileInfo {
    pub id: String,
    pub title: String,
}

/// What a recent-file entry stands for.
pub struct FileView {
    pub id: Seq<char>,
    pub title: Seq<char>,
}

impl View for FileInfo {
    type V = FileView;

    open spec fn view(&self) -> FileView {
        FileView { id: self.id@, title: self.title@ }
    }
}

impl FileInfo {
    /// A recent-file entry with the given identifier and title.
    pub fn new(id: String, title: String) -> (r: FileInfo)
        ensures
            r.id == id,
            r.title == title,
    {
        FileInfo { id, title }
    }

    /// A copy of this entry.
    pub fn duplicate(&self) -> (r: FileInfo)
        ensures
            r@ == self@,
    {
        FileInfo { id: self.id.clone(), title: self.title.clone() }
    }
}

/// A document as the editor shows it: identifier, title and content.
#[derive(Clone, Debug, PartialEq, Eq)]
pub struct DocumentData {
    pub id: String,
    pub title: String,
    pub content: String,
}

/// What a document stands for.
pub struct DocumentView {
    pub id: Seq<char>,
    pub title: Seq<char>,
    pub content: Seq<char>,
}

impl View for DocumentData {
    type V = DocumentView;

    open spec fn view(&self) -> DocumentView {
        DocumentView { id: self.id@, title: self.title@, content: self.content@ }
    }
}

impl DocumentData {
    /// A copy of this document.
    pub fn duplicate(&self) -> (r: DocumentData)
        ensures
            r@ == self@,
    {
        DocumentData { id: self.id.clone(), title: self.title.clone(), content: self.content.clone() }
    }
}

/// What a session saves: the open tabs in order, the tab in focus and the
/// recent files.
#[derive(Clone, Debug, PartialEq, Eq)]
pub struct UserData {
    pub tabs: Vec<Tab>,
    pub last_open_tab: String,
    pub recent_files: Vec<FileInfo>,
}

/// The views of a sequence of tabs.
pub open spec fn tab_views(tabs: Seq<Tab>) -> Seq<TabView> {
    tabs.map_values(|t: Tab| t@)
}

/// The views of a sequence of recent-file entries.
pub open spec fn file_views(files: Seq<FileInfo>) -> Seq<FileView> {
    files.map_values(|f: FileInfo| f@)
}

/// The views of a sequence of documents that may be missing.
pub open spec fn optional_document_views(docs: Seq<Option<DocumentData>>) -> Seq<Option<DocumentView>> {
    docs.map_values(|d: Option<DocumentData>| match d {
        Some(x) => Some(x@),
        None => None,
    })
}

/// The views of a sequence of documents.
pub open spec fn document_views(docs: Seq<DocumentData>) -> Seq<DocumentView> {
    docs.map_values(|d: DocumentData| d@)
}

} // verus!
