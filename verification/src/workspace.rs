//! The workspace: the list of recently edited files, in the order they were
//! first saved.

use vstd::prelude::*;

use crate::model::{FileInfo, FileView, file_views};

verus! {

/// The recent files of the editor.
pub struct Workspace {
    pub recent_files: Vec<FileInfo>,
}

/// `i` is the first position of an entry with identifier `id`.
pub open spec fn first_with_id(files: Seq<FileView>, id: Seq<char>, i: int) -> bool {
    &&& 0 <= i < files.len()
    &&& files[i].id == id
    &&& forall|j: int| 0 <= j < i ==> #[trigger] files[j].id != id
}

/// Recording that the document `id` was saved under `title`: the first entry
/// for `id` takes the new title, or a new entry goes last.
pub open spec fn record_file(files: Seq<FileView>, id: Seq<char>, title: Seq<char>) -> Seq<FileView> {
    if exists|i: int| first_with_id(files, id, i) {
        files.update(choose|i: int| first_with_id(files, id, i), FileView { id, title })
    } else {
        files.push(FileView { id, title })
    }
}

/// The entries whose flag in `keep` is set and whose title differs from
/// `title`, in their order; `keep` has one flag per entry.
pub open spec fn kept_files(files: Seq<FileView>, keep: Seq<bool>, title: Seq<char>) -> Seq<FileView>
    decreases files.len(),
{
    if files.len() == 0 || keep.len() == 0 {
        Seq::empty()
    } else {
        let rest = kept_files(files.drop_last(), keep.drop_last(), title);
        if keep.last() && files.last().title != title {
            rest.push(files.last())
        } else {
            rest
        }
    }
}

/// The entries whose identifier is not `id`.
pub open spec fn without_id(files: Seq<FileView>, id: Seq<char>) -> Seq<FileView> {
    files.filter(|f: FileView| f.id != id)
}

impl Workspace {
    /// A workspace with no recent files.
    pub fn new() -> (r: Workspace)
        ensures
            r.recent_files@ == Seq::<FileInfo>::empty(),
    {
        Workspace { recent_files: Vec::new() }
    }

    /// The recent files, as their views.
    pub open spec fn files(&self) -> Seq<FileView> {
        file_views(self.recent_files@)
    }

    /// Records that the document `id` was saved under `title`.
    pub fn record_document(&mut self, id: &String, title: &String)
        ensures
            final(self).files() == record_file(old(self).files(), id@, title@),
    {
        let n = self.recent_files.len();
        let mut i: usize = 0;
        while i < n
            invariant
                n == self.recent_files@.len(),
                self.recent_files@ == old(self).recent_files@,
                i <= n,
                forall|j: int| 0 <= j < i ==> #[trigger] self.files()[j].id != id@,
            decreases n - i,
        {
            if self.recent_files[i].id == *id {
                proof {
                    assert(first_with_id(self.files(), id@, i as int));
                    let c = choose|c: int| first_with_id(self.files(), id@, c);
                    if c < i {
                        assert(self.files()[c].id != id@);
                    }
                    if i < c {
                        assert(self.files()[i as int].id != id@);
                    }
                }
                self.recent_files.set(i, FileInfo::new(id.clone(), title.clone()));
                assert(self.files() =~= record_file(old(self).files(), id@, title@));
                return;
            }
            i = i + 1;
        }
        proof {
            assert forall|c: int| !first_with_id(self.files(), id@, c) by {
                if first_with_id(self.files(), id@, c) {
                    assert(self.files()[c].id == id@);
                    assert(c < i);
                }
            }
            assert(self.files() == old(self).files());
            assert(!exists|c: int| first_with_id(old(self).files(), id@, c));
        }
        let ghost before = self.recent_files@;
        let f = FileInfo::new(id.clone(), title.clone());
        self.recent_files.push(f);
        assert(file_views(self.recent_files@) =~= file_views(before).push(FileView { id: id@, title: title@ }));
    }

    /// Drops every entry of the document `id`.
    pub fn forget_document(&mut self, id: &String)
        ensures
            final(self).files() == without_id(old(self).files(), id@),
    {
        let ghost pred = |f: FileView| f.id != id@;
        let n = self.recent_files.len();
        let mut kept: Vec<FileInfo> = Vec::new();
        let mut i: usize = 0;
        while i < n
            invariant
                n == self.recent_files@.len(),
                self.recent_files@ == old(self).recent_files@,
                i <= n,
                pred == (|f: FileView| f.id != id@),
                file_views(kept@) == self.files().take(i as int).filter(pred),
            decreases n - i,
        {
            let ghost before = kept@;
            proof {
                reveal_with_fuel(Seq::<_>::filter, 1);
                assert(self.files().take(i + 1).drop_last() =~= self.files().take(i as int));
            }
            if self.recent_files[i].id != *id {
                kept.push(self.recent_files[i].duplicate());
                assert(file_views(kept@) =~= file_views(before).push(self.files()[i as int]));
            } else {
                assert(file_views(kept@) =~= file_views(before));
            }
            i = i + 1;
        }
        assert(self.files().take(n as int) =~= self.files());
        self.recent_files = kept;
    }

    /// Keeps the entries whose flag in `keep` is set and whose title is not
    /// `title`, in their order.
    pub fn retain_flagged(&mut self, keep: &Vec<bool>, title: &String)
        requires
            keep@.len() == old(self).recent_files@.len(),
        ensures
            final(self).files() == kept_files(old(self).files(), keep@, title@),
    {
        let n = self.recent_files.len();
        let mut kept: Vec<FileInfo> = Vec::new();
        let mut i: usize = 0;
        while i < n
            invariant
                n == self.recent_files@.len(),
                self.recent_files@ == old(self).recent_files@,
                keep@.len() == n,
                i <= n,
                file_views(kept@) == kept_files(self.files().take(i as int), keep@.take(i as int), title@),
            decreases n - i,
        {
            let ghost before = kept@;
            proof {
                assert(self.files().take(i + 1).drop_last() =~= self.files().take(i as int));
                assert(keep@.take(i + 1).drop_last() =~= keep@.take(i as int));
                assert(self.files().take(i + 1).last() == self.files()[i as int]);
                assert(keep@.take(i + 1).last() == keep@[i as int]);
            }
            if keep[i] && self.recent_files[i].title != *title {
                kept.push(self.recent_files[i].duplicate());
                assert(file_views(kept@) =~= file_views(before).push(self.files()[i as int]));
            } else {
                assert(file_views(kept@) =~= file_views(before));
            }
            i = i + 1;
        }
        proof {
            assert(self.files().take(n as int) =~= self.files());
            assert(keep@.take(n as int) =~= keep@);
        }
        self.recent_files = kept;
    }

    /// Adds an entry last.
    pub fn push_file(&mut self, file: FileInfo)
        ensures
            final(self).files() == old(self).files().push(file@),
    {
        self.recent_files.push(file);
        assert(self.files() =~= old(self).files().push(file@));
    }

    /// A copy of the recent files.
    pub fn files_copy(&self) -> (r: Vec<FileInfo>)
        ensures
            file_views(r@) == self.files(),
    {
        copy_files(&self.recent_files)
    }

    /// Replaces the recent files.
    pub fn replace_files(&mut self, files: Vec<FileInfo>)
        ensures
            final(self).files() == file_views(files@),
    {
        self.recent_files = files;
    }
}

/// A copy of a list of recent-file entries.
pub fn copy_files(files: &Vec<FileInfo>) -> (r: Vec<FileInfo>)
    ensures
        file_views(r@) == file_views(files@),
{
    let n = files.len();
    let mut r: Vec<FileInfo> = Vec::new();
    let mut i: usize = 0;
    while i < n
        invariant
            n == files@.len(),
            i <= n,
            r@.len() == i,
            forall|k: int| 0 <= k < i ==> #[trigger] r@[k]@ == files@[k]@,
        decreases n - i,
    {
        r.push(files[i].duplicate());
        i = i + 1;
    }
    assert(file_views(r@) =~= file_views(files@));
    r
}

} // verus!
