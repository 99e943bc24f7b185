//! Reading a folder's snapshot out of what a probe of the folder reported:
//! the files directly inside it, without its subfolders.

use vstd::prelude::*;
use vstd::string::StringExecFns;
use crate::entry::{entry_views, DirectoryEntry, EntryView, Timestamp};
use crate::search::{first_where, lemma_first_where, lemma_first_where_is, lemma_first_where_step};

verus! {

/// What probing one child of a folder found.
#[derive(Clone, Copy, Debug, PartialEq, Eq)]
pub enum ChildKind {
    /// The child is itself a folder.
    Directory,
    /// The child is a file of this size, last modified then.
    File { size_bytes: u64, modified_at: Timestamp },
    /// The child is listed, but its metadata could not be read.
    Unreadable,
}

/// One immediate child of a probed folder.
#[derive(Debug, PartialEq, Eq)]
pub struct Child {
    pub name: String,
    pub kind: ChildKind,
}

/// What a [`Child`] stands for.
pub struct ChildView {
    pub name: Seq<char>,
    pub kind: ChildKind,
}

impl View for Child {
    type V = ChildView;

    open spec fn view(&self) -> ChildView {
        ChildView { name: self.name@, kind: self.kind }
    }
}

/// What probing a path found: its immediate children in the order in which
/// the file system gave them, unless the path is no existing folder.
#[derive(Debug, PartialEq, Eq)]
pub enum Listing {
    NotADirectory,
    Children(Vec<Child>),
}

/// What a [`Listing`] stands for.
pub enum ListingView {
    NotADirectory,
    Children(Seq<ChildView>),
}

impl View for Listing {
    type V = ListingView;

    open spec fn view(&self) -> ListingView {
        match self {
            Listing::NotADirectory => ListingView::NotADirectory,
            Listing::Children(children) => ListingView::Children(
                children@.map_values(|c: Child| c@),
            ),
        }
    }
}

/// Why a scan gave no snapshot.
#[derive(Debug, PartialEq, Eq)]
pub enum ScanError {
    /// The path does not lead to an existing folder.
    NotADirectory { path: String },
    /// The folder was listed, but the metadata of this child could not be
    /// read.
    EntryMetadataUnavailable { path: String, entry_name: String },
}

/// What a [`ScanError`] stands for.
pub enum ScanErrorView {
    NotADirectory { path: Seq<char> },
    EntryMetadataUnavailable { path: Seq<char>, entry_name: Seq<char> },
}

impl View for ScanError {
    type V = ScanErrorView;

    open spec fn view(&self) -> ScanErrorView {
        match self {
            ScanError::NotADirectory { path } => ScanErrorView::NotADirectory { path: path@ },
            ScanError::EntryMetadataUnavailable { path, entry_name } => {
                ScanErrorView::EntryMetadataUnavailable { path: path@, entry_name: entry_name@ }
            },
        }
    }
}

/// The text that tells a reader of the error `e`.
pub open spec fn error_text(e: ScanErrorView) -> Seq<char> {
    match e {
        ScanErrorView::NotADirectory { path } => path + " is not a directory"@,
        ScanErrorView::EntryMetadataUnavailable { path, entry_name } => {
            "cannot read the metadata of "@ + entry_name + " in "@ + path
        },
    }
}

impl ScanError {
    /// A line that names the path, and the child where one is at fault.
    pub fn message(&self) -> (r: String)
        ensures
            r@ == error_text(self@),
    {
        match self {
            ScanError::NotADirectory { path } => {
                let mut text = path.clone();
                text.append(" is not a directory");
                text
            },
            ScanError::EntryMetadataUnavailable { path, entry_name } => {
                let mut text = "cannot read the metadata of ".to_owned();
                text.append(entry_name.as_str());
                text.append(" in ");
                text.append(path.as_str());
                text
            },
        }
    }
}

impl Clone for ScanError {
    fn clone(&self) -> (r: ScanError)
        ensures
            r == *self,
    {
        match self {
            ScanError::NotADirectory { path } => ScanError::NotADirectory { path: path.clone() },
            ScanError::EntryMetadataUnavailable { path, entry_name } => {
                ScanError::EntryMetadataUnavailable {
                    path: path.clone(),
                    entry_name: entry_name.clone(),
                }
            },
        }
    }
}

/// Whether the metadata of the child could not be read.
pub open spec fn is_unreadable(c: ChildView) -> bool {
    c.kind is Unreadable
}

/// The snapshot entry of a child that is a file; a folder has none.
pub open spec fn file_entry(c: ChildView) -> Option<EntryView> {
    match c.kind {
        ChildKind::File { size_bytes, modified_at } => Some(
            EntryView { name: c.name, size_bytes, modified_at },
        ),
        _ => None,
    }
}

/// The entries of the children that are files, in the children's order.
pub open spec fn files_of(children: Seq<ChildView>) -> Seq<EntryView> {
    children.filter_map(|c: ChildView| file_entry(c))
}

/// What a scan of `path` gives for a listing: no folder, no snapshot; one
/// unreadable child, no snapshot, and the first such child is named; else
/// the files among the children.
pub open spec fn scan_outcome(path: Seq<char>, listing: ListingView) -> Result<
    Seq<EntryView>,
    ScanErrorView,
> {
    match listing {
        ListingView::NotADirectory => Err(ScanErrorView::NotADirectory { path }),
        ListingView::Children(children) => match first_where(
            children,
            |c: ChildView| is_unreadable(c),
        ) {
            Some(i) => Err(
                ScanErrorView::EntryMetadataUnavailable { path, entry_name: children[i].name },
            ),
            None => Ok(files_of(children)),
        },
    }
}

/// What the result of a scan stands for.
pub open spec fn scan_view(r: Result<Vec<DirectoryEntry>, ScanError>) -> Result<
    Seq<EntryView>,
    ScanErrorView,
> {
    match r {
        Ok(entries) => Ok(entry_views(entries@)),
        Err(e) => Err(e@),
    }
}

/// Reads the snapshot of the folder at `path` out of the listing that a
/// probe of that path gave.
pub fn scan_directory(path: &str, listing: &Listing) -> (r: Result<
    Vec<DirectoryEntry>,
    ScanError,
>)
    ensures
        scan_view(r) == scan_outcome(path@, listing@),
        listing@ is NotADirectory ==> scan_view(r) == Err::<Seq<EntryView>, ScanErrorView>(
            ScanErrorView::NotADirectory { path: path@ },
        ),
{
    match listing {
        Listing::NotADirectory => Err(ScanError::NotADirectory { path: path.to_owned() }),
        Listing::Children(children) => {
            let ghost all = children@.map_values(|c: Child| c@);
            let ghost unreadable = |c: ChildView| is_unreadable(c);
            let ghost entry = |c: ChildView| file_entry(c);
            let mut entries: Vec<DirectoryEntry> = Vec::new();
            let mut i: usize = 0;
            while i < children.len()
                invariant
                    i <= children.len(),
                    listing@ == ListingView::Children(all),
                    all == children@.map_values(|c: Child| c@),
                    unreadable == |c: ChildView| is_unreadable(c),
                    entry == |c: ChildView| file_entry(c),
                    first_where(all.take(i as int), unreadable) is None,
                    entry_views(entries@) == all.take(i as int).filter_map(entry),
                decreases children.len() - i,
            {
                let child = &children[i];
                proof {
                    lemma_first_where_step(all, unreadable, i as int);
                    all.lemma_filter_map_take_succ(entry, i as int);
                }
                match child.kind {
                    ChildKind::Directory => {},
                    ChildKind::File { size_bytes, modified_at } => {
                        let ghost before = entry_views(entries@);
                        entries.push(
                            DirectoryEntry::new(child.name.clone(), size_bytes, modified_at),
                        );
                        assert(entry_views(entries@) =~= before.push(file_entry(all[i as int])->0));
                    },
                    ChildKind::Unreadable => {
                        proof {
                            let seen = all.take(i as int);
                            lemma_first_where(seen, unreadable);
                            assert forall|k: int| 0 <= k < i implies !unreadable(
                                #[trigger] all[k],
                            ) by {
                                assert(seen[k] == all[k]);
                            }
                            lemma_first_where_is(all, unreadable, i as int);
                        }
                        return Err(
                            ScanError::EntryMetadataUnavailable {
                                path: path.to_owned(),
                                entry_name: child.name.clone(),
                            },
                        );
                    },
                }
                i += 1;
            }
            assert(all.take(i as int) =~= all);
            Ok(entries)
        },
    }
}

} // verus!
