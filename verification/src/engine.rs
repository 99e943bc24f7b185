//! The engine's entry point: from what the probes of two paths reported to
//! the list of the files that both folders hold, or to the reason why there
//! is none.

use vstd::prelude::*;
use crate::entry::{match_views, EntryView, MatchView, MatchedFile};
use crate::listing::{
    file_entry, files_of, is_unreadable, scan_directory, scan_outcome, ChildView, Listing,
    ListingView, ScanError, ScanErrorView,
};
use crate::resolve::{
    ascending, has_name, is_match_list, lemma_match_list_is_unique,
    lemma_names_are_the_shared_ones, lemma_sides_are_the_entries, lists, resolve_matches,
};
use crate::search::lemma_first_where;

verus! {

/// What the result of a search stands for.
pub open spec fn find_view(r: Result<Vec<MatchedFile>, ScanError>) -> Result<
    Seq<MatchView>,
    ScanErrorView,
> {
    match r {
        Ok(matches) => Ok(match_views(matches@)),
        Err(e) => Err(e@),
    }
}

/// The error that a search over two scans reports, if any: a path that is
/// no folder comes before an unreadable child, and in either kind the first
/// folder before the second.
pub open spec fn leading_error(
    scan_a: Result<Seq<EntryView>, ScanErrorView>,
    scan_b: Result<Seq<EntryView>, ScanErrorView>,
) -> Option<ScanErrorView> {
    match (scan_a, scan_b) {
        (Ok(_), Ok(_)) => None,
        (Err(e), Ok(_)) => Some(e),
        (Ok(_), Err(e)) => Some(e),
        (Err(in_a), Err(in_b)) => if in_b is NotADirectory && !(in_a is NotADirectory) {
            Some(in_b)
        } else {
            Some(in_a)
        },
    }
}

/// `outcome` is what a search gives for the two listings: the error that
/// leads if a scan fails, and with it no list at all; else the match list
/// of the two snapshots.
pub open spec fn is_find_outcome(
    path_a: Seq<char>,
    listing_a: ListingView,
    path_b: Seq<char>,
    listing_b: ListingView,
    outcome: Result<Seq<MatchView>, ScanErrorView>,
) -> bool {
    let scan_a = scan_outcome(path_a, listing_a);
    let scan_b = scan_outcome(path_b, listing_b);
    match leading_error(scan_a, scan_b) {
        Some(e) => outcome == Err::<Seq<MatchView>, ScanErrorView>(e),
        None => outcome matches Ok(matches) && is_match_list(scan_a->Ok_0, scan_b->Ok_0, matches),
    }
}

/// Whether some child of that name is a file.
pub open spec fn has_file(children: Seq<ChildView>, name: Seq<char>) -> bool {
    exists|k: int|
        0 <= k < children.len() && (#[trigger] children[k]).name == name && children[k].kind is File
}

/// Whether some child is the file that the entry records: of its name, its
/// size and its modification time.
pub open spec fn records_file(children: Seq<ChildView>, e: EntryView) -> bool {
    exists|k: int| 0 <= k < children.len() && file_entry(#[trigger] children[k]) == Some(e)
}

/// The snapshot of a listing holds exactly the entries of the children
/// that are files.
pub proof fn lemma_snapshot_holds_the_files(children: Seq<ChildView>, e: EntryView)
    ensures
        files_of(children).contains(e) <==> records_file(children, e),
    decreases children.len(),
{
    let entry = |c: ChildView| file_entry(c);
    if children.len() > 0 {
        let front = children.drop_last();
        let last = children.last();
        lemma_snapshot_holds_the_files(front, e);
        let kept = files_of(front);
        let all = files_of(children);
        assert(all == match file_entry(last) {
            Some(x) => kept + seq![x],
            None => kept,
        });
        if all.contains(e) {
            let i = choose|i: int| 0 <= i < all.len() && all[i] == e;
            if i < kept.len() {
                assert(kept[i] == e);
                assert(kept.contains(e));
                let k = choose|k: int|
                    0 <= k < front.len() && file_entry(#[trigger] front[k]) == Some(e);
                assert(children[k] == front[k]);
            } else {
                assert(file_entry(children[children.len() - 1]) == Some(e));
            }
        }
        if records_file(children, e) {
            let k = choose|k: int|
                0 <= k < children.len() && file_entry(#[trigger] children[k]) == Some(e);
            if k < front.len() {
                assert(front[k] == children[k]);
                assert(records_file(front, e));
                let i = choose|i: int| 0 <= i < kept.len() && kept[i] == e;
                assert(all[i] == e);
            } else {
                assert(all[all.len() - 1] == e);
            }
        }
    }
}

/// The snapshot of a listing holds a name exactly where a child of that
/// name is a file: a subfolder of that name does not count.
pub proof fn lemma_snapshot_names_are_file_names(children: Seq<ChildView>, name: Seq<char>)
    ensures
        has_name(files_of(children), name) <==> has_file(children, name),
{
    let snapshot = files_of(children);
    if has_name(snapshot, name) {
        let i = choose|i: int| 0 <= i < snapshot.len() && (#[trigger] snapshot[i]).name == name;
        assert(snapshot.contains(snapshot[i]));
        lemma_snapshot_holds_the_files(children, snapshot[i]);
    }
    if has_file(children, name) {
        let k = choose|k: int|
            0 <= k < children.len() && (#[trigger] children[k]).name == name
                && children[k].kind is File;
        let e = file_entry(children[k])->0;
        lemma_snapshot_holds_the_files(children, e);
    }
}

/// The files that are in both folders, by name, each with its record on
/// either side, in ascending ordinal order of name; or the reason why a
/// folder could not be scanned.
pub fn find_matches(path_a: &str, listing_a: &Listing, path_b: &str, listing_b: &Listing) -> (r:
    Result<Vec<MatchedFile>, ScanError>)
    ensures
        is_find_outcome(path_a@, listing_a@, path_b@, listing_b@, find_view(r)),
        listing_a@ is NotADirectory ==> find_view(r) == Err::<Seq<MatchView>, ScanErrorView>(
            ScanErrorView::NotADirectory { path: path_a@ },
        ),
        !(listing_a@ is NotADirectory) && listing_b@ is NotADirectory ==> find_view(r) == Err::<
            Seq<MatchView>,
            ScanErrorView,
        >(ScanErrorView::NotADirectory { path: path_b@ }),
        r matches Ok(matches) ==> ascending(match_views(matches@)),
{
    let scan_a = scan_directory(path_a, listing_a);
    let scan_b = scan_directory(path_b, listing_b);
    match (scan_a, scan_b) {
        (Ok(a), Ok(b)) => Ok(resolve_matches(&a, &b)),
        (Err(e), Ok(_)) => Err(e),
        (Ok(_), Err(e)) => Err(e),
        (Err(in_a), Err(in_b)) => {
            let b_leads = match (&in_a, &in_b) {
                (ScanError::EntryMetadataUnavailable { .. }, ScanError::NotADirectory { .. }) => true,
                _ => false,
            };
            if b_leads {
                Err(in_b)
            } else {
                Err(in_a)
            }
        },
    }
}

/// A search has one outcome only. So a search that is repeated on unchanged
/// folders ends as it did before: with the same matches in the same order,
/// or with the same error.
pub proof fn lemma_outcome_is_unique(
    path_a: Seq<char>,
    listing_a: ListingView,
    path_b: Seq<char>,
    listing_b: ListingView,
    first: Result<Seq<MatchView>, ScanErrorView>,
    second: Result<Seq<MatchView>, ScanErrorView>,
)
    requires
        is_find_outcome(path_a, listing_a, path_b, listing_b, first),
        is_find_outcome(path_a, listing_a, path_b, listing_b, second),
    ensures
        first == second,
{
    let scan_a = scan_outcome(path_a, listing_a);
    let scan_b = scan_outcome(path_b, listing_b);
    if leading_error(scan_a, scan_b) is None {
        lemma_match_list_is_unique(scan_a->Ok_0, scan_b->Ok_0, first->Ok_0, second->Ok_0);
    }
}

/// A path that is no folder fails the search with `NotADirectory`, whatever
/// else was found, and naming the first folder's path if both are at fault.
pub proof fn lemma_no_folder_fails(
    path_a: Seq<char>,
    listing_a: ListingView,
    path_b: Seq<char>,
    listing_b: ListingView,
    outcome: Result<Seq<MatchView>, ScanErrorView>,
)
    requires
        is_find_outcome(path_a, listing_a, path_b, listing_b, outcome),
        listing_a is NotADirectory || listing_b is NotADirectory,
    ensures
        outcome == Err::<Seq<MatchView>, ScanErrorView>(
            ScanErrorView::NotADirectory {
                path: if listing_a is NotADirectory {
                    path_a
                } else {
                    path_b
                },
            },
        ),
{
}

/// An unreadable child fails the search, where both paths are folders.
pub proof fn lemma_unreadable_child_fails(
    path_a: Seq<char>,
    children_a: Seq<ChildView>,
    path_b: Seq<char>,
    children_b: Seq<ChildView>,
    outcome: Result<Seq<MatchView>, ScanErrorView>,
)
    requires
        is_find_outcome(
            path_a,
            ListingView::Children(children_a),
            path_b,
            ListingView::Children(children_b),
            outcome,
        ),
    ensures
        outcome is Err <==> (exists|k: int|
            0 <= k < children_a.len() && (#[trigger] children_a[k]).kind is Unreadable) || (exists|
            k: int,
        | 0 <= k < children_b.len() && (#[trigger] children_b[k]).kind is Unreadable),
        outcome matches Err(e) ==> e is EntryMetadataUnavailable,
{
    lemma_first_where(children_a, |c: ChildView| is_unreadable(c));
    lemma_first_where(children_b, |c: ChildView| is_unreadable(c));
}

/// The search lists exactly the names that are a file's name in both
/// folders. A subfolder never shows, not even under the name of a file on
/// the other side.
pub proof fn lemma_matches_are_the_shared_files(
    path_a: Seq<char>,
    children_a: Seq<ChildView>,
    path_b: Seq<char>,
    children_b: Seq<ChildView>,
    matches: Seq<MatchView>,
)
    requires
        is_find_outcome(
            path_a,
            ListingView::Children(children_a),
            path_b,
            ListingView::Children(children_b),
            Ok(matches),
        ),
    ensures
        forall|name: Seq<char>|
            lists(matches, name) <==> has_file(children_a, name) && has_file(children_b, name),
{
    lemma_names_are_the_shared_ones(files_of(children_a), files_of(children_b), matches);
    assert forall|name: Seq<char>|
        lists(matches, name) <==> has_file(children_a, name) && has_file(children_b, name) by {
        lemma_snapshot_names_are_file_names(children_a, name);
        lemma_snapshot_names_are_file_names(children_b, name);
    }
}

/// Each match carries, on either side, the size and the modification time
/// that the probe of that folder reported for a file of the match's name.
pub proof fn lemma_sides_record_the_files(
    path_a: Seq<char>,
    children_a: Seq<ChildView>,
    path_b: Seq<char>,
    children_b: Seq<ChildView>,
    matches: Seq<MatchView>,
    i: int,
)
    requires
        is_find_outcome(
            path_a,
            ListingView::Children(children_a),
            path_b,
            ListingView::Children(children_b),
            Ok(matches),
        ),
        0 <= i < matches.len(),
    ensures
        matches[i].well_paired(),
        records_file(children_a, matches[i].side_a),
        records_file(children_b, matches[i].side_b),
{
    lemma_sides_are_the_entries(files_of(children_a), files_of(children_b), matches, i);
    lemma_snapshot_holds_the_files(children_a, matches[i].side_a);
    lemma_snapshot_holds_the_files(children_b, matches[i].side_b);
}

} // verus!
