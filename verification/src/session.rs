//! What a front end keeps between two user actions: the two folders chosen,
//! and the matches of the last search that succeeded. Each user action is
//! one call; what touches the file system or the screen stays with the front
//! end, which reports back how it went.

use vstd::prelude::*;
use vstd::string::StringExecFns;
use crate::engine::{find_matches, is_find_outcome};
use crate::entry::{match_views, MatchView, MatchedFile};
use crate::listing::{Listing, ScanError};
use crate::ordinal::{lemma_irreflexive, ordinal_lt, same_name};
use crate::resolve::{ascending, insertion_point, lemma_listed_at_insertion_point, lists};

verus! {

/// One of the two folders.
#[derive(Clone, Copy, Debug, PartialEq, Eq, Structural)]
pub enum Side {
    A,
    B,
}

/// Whether a search can be started.
#[derive(Clone, Copy, Debug, PartialEq, Eq, Structural)]
pub enum Readiness {
    /// A folder is still to be chosen.
    Incomplete,
    /// Both choices are the same path: there is nothing to match.
    SameFolder,
    /// Two different folders are chosen.
    Ready,
}

/// How a request for a search ended.
#[derive(Debug, PartialEq, Eq)]
pub enum Rescan {
    /// No search was made: the session was not ready for one.
    Refused,
    /// A folder could not be scanned. The earlier matches stand.
    Failed(ScanError),
    /// The matches are those of this search.
    Completed,
}

/// The state of a front end.
#[derive(Debug)]
pub struct Session {
    folder_a: Option<String>,
    folder_b: Option<String>,
    matches: Vec<MatchedFile>,
    has_run: bool,
}

/// What a [`Session`] stands for.
pub struct SessionView {
    pub folder_a: Option<Seq<char>>,
    pub folder_b: Option<Seq<char>>,
    pub matches: Seq<MatchView>,
    pub has_run: bool,
}

/// What a chosen folder stands for.
pub open spec fn folder_view(folder: Option<String>) -> Option<Seq<char>> {
    match folder {
        Some(path) => Some(path@),
        None => None,
    }
}

/// The path of the file `name` directly inside the folder `folder`.
pub open spec fn path_in(folder: Seq<char>, name: Seq<char>) -> Seq<char> {
    folder + seq!['/'] + name
}

/// The list without the matches of that name; the others stay, each once
/// and in their order.
pub open spec fn without(matches: Seq<MatchView>, name: Seq<char>) -> Seq<MatchView> {
    matches.filter(|m: MatchView| m.name != name)
}

impl SessionView {
    /// The folder chosen on a side.
    pub open spec fn folder(self, side: Side) -> Option<Seq<char>> {
        match side {
            Side::A => self.folder_a,
            Side::B => self.folder_b,
        }
    }

    /// Whether a search can be started.
    pub open spec fn readiness(self) -> Readiness {
        match (self.folder_a, self.folder_b) {
            (Some(a), Some(b)) => if a == b {
                Readiness::SameFolder
            } else {
                Readiness::Ready
            },
            _ => Readiness::Incomplete,
        }
    }

    /// The path of the copy, on a side, of a file that the matches list:
    /// none while that folder is not chosen, none for a name that is not
    /// listed.
    pub open spec fn removal_target(self, side: Side, name: Seq<char>) -> Option<Seq<char>> {
        match self.folder(side) {
            Some(folder) => if lists(self.matches, name) {
                Some(path_in(folder, name))
            } else {
                None
            },
            None => None,
        }
    }

    /// The state with another folder on a side.
    pub open spec fn with_folder(self, side: Side, path: Seq<char>) -> SessionView {
        match side {
            Side::A => SessionView { folder_a: Some(path), ..self },
            Side::B => SessionView { folder_b: Some(path), ..self },
        }
    }

    /// The state after a search that succeeded with these matches.
    pub open spec fn with_matches(self, matches: Seq<MatchView>) -> SessionView {
        SessionView { matches, has_run: true, ..self }
    }

    /// The state after the file of that name was deleted on one side.
    pub open spec fn with_removal(self, name: Seq<char>) -> SessionView {
        SessionView { matches: without(self.matches, name), ..self }
    }
}

/// Removing a name from an ascending list that does not hold it changes
/// nothing.
proof fn lemma_without_unlisted(matches: Seq<MatchView>, name: Seq<char>)
    requires
        !lists(matches, name),
    ensures
        without(matches, name) == matches,
    decreases matches.len(),
{
    let kept = |m: MatchView| m.name != name;
    reveal(Seq::filter);
    if matches.len() > 0 {
        let front = matches.drop_last();
        assert(matches.last() == matches[matches.len() - 1]);
        assert forall|i: int| 0 <= i < front.len() implies (#[trigger] front[i]).name != name by {
            assert(matches[i] == front[i]);
        }
        lemma_without_unlisted(front, name);
        assert(front.push(matches.last()) =~= matches);
    } else {
        assert(matches.filter(kept) =~= matches);
    }
}

/// Removing a name from an ascending list takes out the one match of that
/// name, from its place, and nothing else.
proof fn lemma_without_listed(matches: Seq<MatchView>, name: Seq<char>, at: int)
    requires
        ascending(matches),
        0 <= at < matches.len(),
        matches[at].name == name,
    ensures
        without(matches, name) == matches.remove(at),
    decreases matches.len(),
{
    let kept = |m: MatchView| m.name != name;
    reveal(Seq::filter);
    let front = matches.drop_last();
    let last = matches.last();
    lemma_irreflexive(name);
    if at == matches.len() - 1 {
        assert forall|i: int| 0 <= i < front.len() implies (#[trigger] front[i]).name != name by {
            assert(ordinal_lt(matches[i].name, matches[at].name));
        }
        lemma_without_unlisted(front, name);
        assert(matches.remove(at) =~= front);
    } else {
        assert(ordinal_lt(matches[at].name, matches[matches.len() - 1].name));
        lemma_without_listed(front, name, at);
        assert(matches.remove(at) =~= front.remove(at).push(last));
    }
}

/// Removal keeps a list ascending, leaves no match of the removed name, and
/// keeps every match of another name.
pub proof fn lemma_removal_spares_the_others(matches: Seq<MatchView>, name: Seq<char>)
    requires
        ascending(matches),
    ensures
        ascending(without(matches, name)),
        !lists(without(matches, name), name),
        forall|other: Seq<char>|
            other != name ==> (lists(without(matches, name), other) <==> lists(matches, other)),
{
    let rest = without(matches, name);
    if lists(matches, name) {
        let at = choose|k: int| 0 <= k < matches.len() && (#[trigger] matches[k]).name == name;
        lemma_without_listed(matches, name, at);
        lemma_irreflexive(name);
        assert forall|i: int| 0 <= i < rest.len() implies (#[trigger] rest[i]).name != name by {
            let k = if i < at { i } else { i + 1 };
            assert(rest[i] == matches[k]);
            if k < at {
                assert(ordinal_lt(matches[k].name, matches[at].name));
            } else {
                assert(ordinal_lt(matches[at].name, matches[k].name));
            }
        }
        assert forall|i: int, j: int| 0 <= i < j < rest.len() implies ordinal_lt(
            (#[trigger] rest[i]).name,
            (#[trigger] rest[j]).name,
        ) by {
            let i0 = if i < at { i } else { i + 1 };
            let j0 = if j < at { j } else { j + 1 };
            assert(rest[i] == matches[i0]);
            assert(rest[j] == matches[j0]);
        }
        assert forall|other: Seq<char>| other != name implies (lists(rest, other) <==> lists(
            matches,
            other,
        )) by {
            if lists(rest, other) {
                let i = choose|i: int| 0 <= i < rest.len() && (#[trigger] rest[i]).name == other;
                let k = if i < at { i } else { i + 1 };
                assert(matches[k] == rest[i]);
            }
            if lists(matches, other) {
                let k = choose|k: int|
                    0 <= k < matches.len() && (#[trigger] matches[k]).name == other;
                let i = if k < at { k } else { k - 1 };
                assert(rest[i] == matches[k]);
            }
        }
    } else {
        lemma_without_unlisted(matches, name);
    }
}

impl View for Session {
    type V = SessionView;

    closed spec fn view(&self) -> SessionView {
        SessionView {
            folder_a: folder_view(self.folder_a),
            folder_b: folder_view(self.folder_b),
            matches: match_views(self.matches@),
            has_run: self.has_run,
        }
    }
}

impl Session {
    #[verifier::type_invariant]
    closed spec fn matches_ascend(self) -> bool {
        ascending(match_views(self.matches@))
    }

    /// A session in which nothing is chosen and nothing was searched.
    pub fn new() -> (r: Session)
        ensures
            r@ == (SessionView {
                folder_a: None,
                folder_b: None,
                matches: Seq::<MatchView>::empty(),
                has_run: false,
            }),
    {
        let r = Session { folder_a: None, folder_b: None, matches: Vec::new(), has_run: false };
        assert(match_views(r.matches@) =~= Seq::<MatchView>::empty());
        r
    }

    /// The user chose a folder for a side. Matches of an earlier search
    /// stay as they are.
    pub fn pick_folder(&mut self, side: Side, path: String)
        ensures
            final(self)@ == old(self)@.with_folder(side, path@),
    {
        proof {
            use_type_invariant(&*self);
        }
        match side {
            Side::A => {
                self.folder_a = Some(path);
            },
            Side::B => {
                self.folder_b = Some(path);
            },
        }
    }

    /// The folder chosen on a side.
    pub fn folder(&self, side: Side) -> (r: Option<&String>)
        ensures
            match r {
                Some(path) => self@.folder(side) == Some(path@),
                None => self@.folder(side) is None,
            },
    {
        match side {
            Side::A => self.folder_a.as_ref(),
            Side::B => self.folder_b.as_ref(),
        }
    }

    /// The matches of the last search that succeeded, less what was removed
    /// since: in ascending order of name.
    pub fn matches(&self) -> (r: &Vec<MatchedFile>)
        ensures
            match_views(r@) == self@.matches,
            ascending(self@.matches),
    {
        proof {
            use_type_invariant(self);
        }
        &self.matches
    }

    /// Whether a search has succeeded in this session.
    pub fn has_run(&self) -> (r: bool)
        ensures
            r == self@.has_run,
    {
        self.has_run
    }

    /// Whether a search can be started.
    pub fn readiness(&self) -> (r: Readiness)
        ensures
            r == self@.readiness(),
    {
        match (&self.folder_a, &self.folder_b) {
            (Some(a), Some(b)) => {
                if *a == *b {
                    Readiness::SameFolder
                } else {
                    Readiness::Ready
                }
            },
            _ => Readiness::Incomplete,
        }
    }

    /// The user asked for a search, and the two folders were probed. Where
    /// the session is ready, the matches become those of the two listings;
    /// if a scan fails, they stay as they were.
    pub fn rescan(&mut self, listing_a: &Listing, listing_b: &Listing) -> (r: Rescan)
        ensures
            old(self)@.readiness() != Readiness::Ready ==> r is Refused && final(self)@ == old(self)@,
            old(self)@.readiness() == Readiness::Ready ==> match r {
                Rescan::Refused => false,
                Rescan::Failed(e) => {
                    &&& final(self)@ == old(self)@
                    &&& is_find_outcome(
                        old(self)@.folder_a->0,
                        listing_a@,
                        old(self)@.folder_b->0,
                        listing_b@,
                        Err(e@),
                    )
                },
                Rescan::Completed => {
                    &&& final(self)@ == old(self)@.with_matches(final(self)@.matches)
                    &&& is_find_outcome(
                        old(self)@.folder_a->0,
                        listing_a@,
                        old(self)@.folder_b->0,
                        listing_b@,
                        Ok(final(self)@.matches),
                    )
                },
            },
    {
        let outcome = match (&self.folder_a, &self.folder_b) {
            (Some(a), Some(b)) => {
                if *a == *b {
                    return Rescan::Refused;
                }
                find_matches(a.as_str(), listing_a, b.as_str(), listing_b)
            },
            _ => {
                return Rescan::Refused;
            },
        };
        match outcome {
            Ok(matches) => {
                self.matches = matches;
                self.has_run = true;
                Rescan::Completed
            },
            Err(e) => Rescan::Failed(e),
        }
    }

    /// The path of the copy, on a side, of a listed file: what the front
    /// end is to delete when the user asks to remove that copy.
    pub fn removal_target(&self, side: Side, name: &str) -> (r: Option<String>)
        ensures
            match r {
                Some(path) => self@.removal_target(side, name@) == Some(path@),
                None => self@.removal_target(side, name@) is None,
            },
    {
        proof {
            use_type_invariant(self);
        }
        let folder = match side {
            Side::A => &self.folder_a,
            Side::B => &self.folder_b,
        };
        match folder {
            None => None,
            Some(folder) => {
                let at = insertion_point(&self.matches, name);
                proof {
                    lemma_listed_at_insertion_point(match_views(self.matches@), name@, at as int);
                }
                if at < self.matches.len() && same_name(self.matches[at].name().as_str(), name) {
                    let mut path = folder.clone();
                    proof {
                        reveal_strlit("/");
                        assert("/"@ =~= seq!['/']);
                    }
                    path.append("/");
                    path.append(name);
                    Some(path)
                } else {
                    None
                }
            },
        }
    }

    /// The front end tried to delete a copy of the file of that name, and
    /// reports whether the file is gone. If it is, the name leaves the
    /// matches, and the other matches stay as they are; if it is not,
    /// nothing changes.
    pub fn settle_removal(&mut self, name: &str, deleted: bool)
        ensures
            deleted ==> final(self)@ == old(self)@.with_removal(name@),
            !deleted ==> final(self)@ == old(self)@,
    {
        proof {
            use_type_invariant(&*self);
        }
        if deleted {
            let ghost before = match_views(self.matches@);
            let at = insertion_point(&self.matches, name);
            proof {
                lemma_listed_at_insertion_point(before, name@, at as int);
                lemma_removal_spares_the_others(before, name@);
            }
            if at < self.matches.len() && same_name(self.matches[at].name().as_str(), name) {
                let mut rest: Vec<MatchedFile> = Vec::new();
                assert(match_views(rest@) =~= Seq::<MatchView>::empty());
                std::mem::swap(&mut self.matches, &mut rest);
                rest.remove(at);
                proof {
                    lemma_without_listed(before, name@, at as int);
                    assert(match_views(rest@) =~= before.remove(at as int));
                }
                self.matches = rest;
            } else {
                proof {
                    lemma_without_unlisted(before, name@);
                }
            }
        }
    }
}

} // verus!
