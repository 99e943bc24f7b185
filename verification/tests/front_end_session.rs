use folder_fuser::display::{preview_height, PREVIEW_WIDTH};
use folder_fuser::entry::{MatchedFile, Timestamp};
use folder_fuser::listing::{Child, ChildKind, Listing, ScanError};
use folder_fuser::session::{Readiness, Rescan, Session, Side};

fn file(name: &str, size_bytes: u64) -> Child {
    Child {
        name: name.to_string(),
        kind: ChildKind::File { size_bytes, modified_at: Timestamp { secs: 0, nanos: 0 } },
    }
}

fn names(matches: &Vec<MatchedFile>) -> Vec<String> {
    matches.iter().map(|m| m.name().clone()).collect()
}

fn left() -> Listing {
    Listing::Children(vec![file("c", 1), file("a", 1), file("b", 1), file("only-left", 1)])
}

fn right() -> Listing {
    Listing::Children(vec![file("b", 2), file("c", 2), file("only-right", 2), file("a", 2)])
}

fn searched() -> Session {
    let mut s = Session::new();
    s.pick_folder(Side::A, "/left".to_string());
    s.pick_folder(Side::B, "/right".to_string());
    assert_eq!(s.rescan(&left(), &right()), Rescan::Completed);
    s
}

#[test]
fn a_new_session_is_empty() {
    let s = Session::new();
    assert_eq!(s.folder(Side::A), None);
    assert_eq!(s.folder(Side::B), None);
    assert!(s.matches().is_empty());
    assert!(!s.has_run());
    assert_eq!(s.readiness(), Readiness::Incomplete);
}

#[test]
fn one_folder_is_not_enough() {
    let mut s = Session::new();
    s.pick_folder(Side::A, "/left".to_string());
    assert_eq!(s.folder(Side::A), Some(&"/left".to_string()));
    assert_eq!(s.folder(Side::B), None);
    assert_eq!(s.readiness(), Readiness::Incomplete);
    let mut t = Session::new();
    t.pick_folder(Side::B, "/right".to_string());
    assert_eq!(t.folder(Side::A), None);
    assert_eq!(t.folder(Side::B), Some(&"/right".to_string()));
    assert_eq!(t.readiness(), Readiness::Incomplete);
}

#[test]
fn the_same_folder_twice_is_rejected() {
    let mut s = Session::new();
    s.pick_folder(Side::A, "/same".to_string());
    s.pick_folder(Side::B, "/same".to_string());
    assert_eq!(s.readiness(), Readiness::SameFolder);
    assert_eq!(s.rescan(&left(), &left()), Rescan::Refused);
    assert!(s.matches().is_empty());
    assert!(!s.has_run());
}

#[test]
fn two_folders_make_the_session_ready() {
    let mut s = Session::new();
    s.pick_folder(Side::A, "/left".to_string());
    s.pick_folder(Side::B, "/right".to_string());
    assert_eq!(s.readiness(), Readiness::Ready);
    s.pick_folder(Side::B, "/left".to_string());
    assert_eq!(s.readiness(), Readiness::SameFolder);
    s.pick_folder(Side::A, "/other".to_string());
    assert_eq!(s.readiness(), Readiness::Ready);
    assert_eq!(s.folder(Side::A), Some(&"/other".to_string()));
    assert_eq!(s.folder(Side::B), Some(&"/left".to_string()));
}

#[test]
fn a_search_is_refused_until_both_folders_are_chosen() {
    let mut s = Session::new();
    assert_eq!(s.rescan(&left(), &right()), Rescan::Refused);
    s.pick_folder(Side::A, "/left".to_string());
    assert_eq!(s.rescan(&left(), &right()), Rescan::Refused);
    assert!(!s.has_run());
    assert!(s.matches().is_empty());
}

#[test]
fn a_search_fills_the_matches() {
    let s = searched();
    assert!(s.has_run());
    assert_eq!(names(s.matches()), vec!["a", "b", "c"]);
    assert_eq!(s.matches()[0].side_a().size_bytes, 1);
    assert_eq!(s.matches()[0].side_b().size_bytes, 2);
}

#[test]
fn a_search_without_matches_has_run() {
    let mut s = Session::new();
    s.pick_folder(Side::A, "/left".to_string());
    s.pick_folder(Side::B, "/right".to_string());
    let r = s.rescan(&Listing::Children(vec![file("a", 1)]), &Listing::Children(vec![file("b", 1)]));
    assert_eq!(r, Rescan::Completed);
    assert!(s.has_run());
    assert!(s.matches().is_empty());
}

#[test]
fn a_failed_search_leaves_the_earlier_matches() {
    let mut s = searched();
    let r = s.rescan(&left(), &Listing::NotADirectory);
    assert_eq!(r, Rescan::Failed(ScanError::NotADirectory { path: "/right".to_string() }));
    assert_eq!(names(s.matches()), vec!["a", "b", "c"]);
    assert!(s.has_run());
}

#[test]
fn a_failed_first_search_has_not_run() {
    let mut s = Session::new();
    s.pick_folder(Side::A, "/left".to_string());
    s.pick_folder(Side::B, "/right".to_string());
    let broken = Listing::Children(vec![Child { name: "x".to_string(), kind: ChildKind::Unreadable }]);
    let r = s.rescan(&broken, &right());
    assert_eq!(
        r,
        Rescan::Failed(ScanError::EntryMetadataUnavailable {
            path: "/left".to_string(),
            entry_name: "x".to_string(),
        })
    );
    assert!(!s.has_run());
    assert!(s.matches().is_empty());
}

#[test]
fn a_later_search_replaces_the_matches() {
    let mut s = searched();
    let r = s.rescan(
        &Listing::Children(vec![file("z", 1), file("a", 1)]),
        &Listing::Children(vec![file("z", 1), file("y", 1)]),
    );
    assert_eq!(r, Rescan::Completed);
    assert_eq!(names(s.matches()), vec!["z"]);
}

#[test]
fn choosing_a_folder_keeps_the_matches() {
    let mut s = searched();
    s.pick_folder(Side::A, "/elsewhere".to_string());
    assert_eq!(names(s.matches()), vec!["a", "b", "c"]);
    assert!(s.has_run());
    assert_eq!(s.folder(Side::B), Some(&"/right".to_string()));
}

#[test]
fn the_removal_target_is_the_file_inside_the_folder() {
    let s = searched();
    assert_eq!(s.removal_target(Side::A, "b"), Some("/left/b".to_string()));
    assert_eq!(s.removal_target(Side::B, "b"), Some("/right/b".to_string()));
    assert_eq!(s.removal_target(Side::A, "a"), Some("/left/a".to_string()));
    assert_eq!(s.removal_target(Side::B, "c"), Some("/right/c".to_string()));
}

#[test]
fn there_is_no_removal_target_for_a_name_that_is_not_listed() {
    let s = searched();
    assert_eq!(s.removal_target(Side::A, "only-left"), None);
    assert_eq!(s.removal_target(Side::B, "only-right"), None);
    assert_eq!(s.removal_target(Side::A, ""), None);
    assert_eq!(s.removal_target(Side::A, "B"), None);
    assert_eq!(s.removal_target(Side::A, "zzz"), None);
    assert_eq!(Session::new().removal_target(Side::A, "a"), None);
}

#[test]
fn a_deleted_file_leaves_the_matches() {
    let mut s = searched();
    s.settle_removal("b", true);
    assert_eq!(names(s.matches()), vec!["a", "c"]);
    assert_eq!(s.removal_target(Side::A, "b"), None);
    assert_eq!(s.removal_target(Side::A, "c"), Some("/left/c".to_string()));
    assert!(s.has_run());
    assert_eq!(s.folder(Side::A), Some(&"/left".to_string()));
}

#[test]
fn a_failed_delete_changes_nothing() {
    let mut s = searched();
    s.settle_removal("b", false);
    assert_eq!(names(s.matches()), vec!["a", "b", "c"]);
    assert_eq!(s.removal_target(Side::B, "b"), Some("/right/b".to_string()));
}

#[test]
fn removing_an_unlisted_name_changes_nothing() {
    let mut s = searched();
    s.settle_removal("nowhere", true);
    assert_eq!(names(s.matches()), vec!["a", "b", "c"]);
    let mut empty = Session::new();
    empty.settle_removal("a", true);
    assert!(empty.matches().is_empty());
}

#[test]
fn removals_in_a_row_skip_and_repeat_nothing() {
    let mut s = searched();
    s.settle_removal("a", true);
    assert_eq!(names(s.matches()), vec!["b", "c"]);
    s.settle_removal("c", true);
    assert_eq!(names(s.matches()), vec!["b"]);
    s.settle_removal("c", true);
    assert_eq!(names(s.matches()), vec!["b"]);
    s.settle_removal("b", true);
    assert!(s.matches().is_empty());
    assert!(s.has_run());
}

#[test]
fn removal_keeps_the_metadata_of_the_others() {
    let mut s = searched();
    let kept: Vec<MatchedFile> = s.matches().iter().filter(|m| m.name() != "a").cloned().collect();
    s.settle_removal("a", true);
    assert_eq!(*s.matches(), kept);
}

#[test]
fn previews_keep_their_proportions() {
    assert_eq!(PREVIEW_WIDTH, 400);
    assert_eq!(preview_height(800, 600), Some(300));
    assert_eq!(preview_height(400, 123), Some(123));
    assert_eq!(preview_height(3, 2), Some(266));
    assert_eq!(preview_height(1, 1), Some(400));
    assert_eq!(preview_height(1000, 1), Some(0));
    assert_eq!(preview_height(5, 0), Some(0));
}

#[test]
fn there_is_no_preview_height_without_width_or_beyond_usize() {
    assert_eq!(preview_height(0, 600), None);
    assert_eq!(preview_height(0, 0), None);
    assert_eq!(preview_height(1, usize::MAX), None);
    assert_eq!(preview_height(1, usize::MAX / 400 + 1), None);
    assert_eq!(preview_height(2, usize::MAX / 400), Some(usize::MAX / 400 * 400 / 2));
}
