//! The match resolver: the file names that two snapshots share, each paired
//! with the file's record on either side, in ascending ordinal order of name.

use vstd::prelude::*;
use crate::entry::{
    entry_views, match_views, paired, DirectoryEntry, EntryView, MatchView, MatchedFile,
};
use crate::ordinal::{
    lemma_asymmetric, lemma_irreflexive, lemma_total, lemma_transitive, ordinal_le, ordinal_lt,
    precedes, same_name,
};
use crate::search::{first_where, lemma_first_where, lemma_first_where_is, lemma_first_where_step};

verus! {

/// Whether some entry of the snapshot carries the name.
pub open spec fn has_name(snapshot: Seq<EntryView>, name: Seq<char>) -> bool {
    exists|i: int| 0 <= i < snapshot.len() && (#[trigger] snapshot[i]).name == name
}

/// The first entry of the snapshot that carries the name. A folder holds no
/// name twice, so in the snapshot of a folder it is the only one.
pub open spec fn first_named(snapshot: Seq<EntryView>, name: Seq<char>) -> Option<EntryView> {
    match first_where(snapshot, |e: EntryView| e.name == name) {
        Some(i) => Some(snapshot[i]),
        None => None,
    }
}

/// Whether some match of the list carries the name.
pub open spec fn lists(matches: Seq<MatchView>, name: Seq<char>) -> bool {
    exists|i: int| 0 <= i < matches.len() && (#[trigger] matches[i]).name == name
}

/// The names that the snapshot holds.
pub open spec fn names_of(snapshot: Seq<EntryView>) -> Set<Seq<char>> {
    Set::new(|name: Seq<char>| has_name(snapshot, name))
}

/// The names that the list holds.
pub open spec fn listed_names(matches: Seq<MatchView>) -> Set<Seq<char>> {
    Set::new(|name: Seq<char>| lists(matches, name))
}

/// The names of the list ascend strictly in ordinal order.
pub open spec fn ascending(matches: Seq<MatchView>) -> bool {
    forall|i: int, j: int|
        0 <= i < j < matches.len() ==> ordinal_lt(
            (#[trigger] matches[i]).name,
            (#[trigger] matches[j]).name,
        )
}

/// The match holds, on either side, the snapshot's entry of the match's name.
pub open spec fn joins(a: Seq<EntryView>, b: Seq<EntryView>, m: MatchView) -> bool {
    &&& first_named(a, m.name) == Some(m.side_a)
    &&& first_named(b, m.name) == Some(m.side_b)
}

/// `matches` is the match list of the snapshots `a` and `b`: its names
/// ascend, each match joins the two entries of its name, and no name that
/// both snapshots hold is left out.
pub open spec fn is_match_list(
    a: Seq<EntryView>,
    b: Seq<EntryView>,
    matches: Seq<MatchView>,
) -> bool {
    &&& ascending(matches)
    &&& forall|i: int| 0 <= i < matches.len() ==> joins(a, b, #[trigger] matches[i])
    &&& forall|name: Seq<char>|
        has_name(a, name) && has_name(b, name) ==> #[trigger] lists(matches, name)
}

/// A snapshot holds a name exactly where it has a first entry of that name,
/// and that entry carries the name.
pub proof fn lemma_first_named(snapshot: Seq<EntryView>, name: Seq<char>)
    ensures
        has_name(snapshot, name) <==> first_named(snapshot, name) is Some,
        first_named(snapshot, name) matches Some(e) ==> e.name == name && snapshot.contains(e),
{
    lemma_first_where(snapshot, |e: EntryView| e.name == name);
}

/// What one more entry at the end of a snapshot does to the first entry of
/// a name: nothing where there was one, and else the new entry is it if it
/// carries the name.
proof fn lemma_first_named_step(snapshot: Seq<EntryView>, j: int, name: Seq<char>)
    requires
        0 <= j < snapshot.len(),
    ensures
        first_named(snapshot.take(j + 1), name) == match first_named(snapshot.take(j), name) {
            Some(e) => Some(e),
            None => if snapshot[j].name == name {
                Some(snapshot[j])
            } else {
                None
            },
        },
{
    let named = |e: EntryView| e.name == name;
    lemma_first_where_step(snapshot, named, j);
    lemma_first_where(snapshot.take(j), named);
}

/// An entry leaves the match list as it is where the first snapshot lacks
/// its name, and where the list holds its name already.
proof fn lemma_step_kept(a: Seq<EntryView>, b: Seq<EntryView>, matches: Seq<MatchView>, j: int)
    requires
        0 <= j < b.len(),
        is_match_list(a, b.take(j), matches),
        first_named(a, b[j].name) is None || lists(matches, b[j].name),
    ensures
        is_match_list(a, b.take(j + 1), matches),
{
    let seen = b.take(j);
    let more = b.take(j + 1);
    assert forall|i: int| 0 <= i < matches.len() implies joins(a, more, #[trigger] matches[i]) by {
        assert(joins(a, seen, matches[i]));
        lemma_first_named_step(b, j, matches[i].name);
    }
    assert forall|name: Seq<char>| has_name(a, name) && has_name(more, name) implies #[trigger] lists(
        matches,
        name,
    ) by {
        lemma_first_named(a, name);
        lemma_first_named(more, name);
        lemma_first_named(seen, name);
        lemma_first_named_step(b, j, name);
    }
}

/// `at` is where a match of the name belongs in an ascending list: the
/// names before it come before the name, the names from it on do not.
pub open spec fn is_insertion_point(matches: Seq<MatchView>, name: Seq<char>, at: int) -> bool {
    &&& 0 <= at <= matches.len()
    &&& forall|k: int| 0 <= k < at ==> ordinal_lt((#[trigger] matches[k]).name, name)
    &&& forall|k: int| at <= k < matches.len() ==> !ordinal_lt((#[trigger] matches[k]).name, name)
}

/// In an ascending list, only the match at the insertion point of a name
/// can carry that name.
pub proof fn lemma_listed_at_insertion_point(matches: Seq<MatchView>, name: Seq<char>, at: int)
    requires
        ascending(matches),
        is_insertion_point(matches, name, at),
    ensures
        lists(matches, name) <==> at < matches.len() && matches[at].name == name,
{
    if lists(matches, name) {
        let k = choose|k: int| 0 <= k < matches.len() && (#[trigger] matches[k]).name == name;
        lemma_irreflexive(name);
        if k > at {
            assert(ordinal_lt(matches[at].name, matches[k].name));
        }
    }
}

/// An entry whose name both snapshots hold and the list lacks enters the
/// list at its insertion point, paired with the first snapshot's entry of
/// that name.
proof fn lemma_step_new(
    a: Seq<EntryView>,
    b: Seq<EntryView>,
    matches: Seq<MatchView>,
    j: int,
    twin: EntryView,
    at: int,
)
    requires
        0 <= j < b.len(),
        is_match_list(a, b.take(j), matches),
        first_named(a, b[j].name) == Some(twin),
        is_insertion_point(matches, b[j].name, at),
        !lists(matches, b[j].name),
    ensures
        twin.name == b[j].name,
        is_match_list(a, b.take(j + 1), matches.insert(at, paired(twin, b[j]))),
{
    let seen = b.take(j);
    let more = b.take(j + 1);
    let name = b[j].name;
    let fresh = paired(twin, b[j]);
    let grown = matches.insert(at, fresh);
    lemma_first_named(a, name);
    lemma_first_named(seen, name);
    lemma_first_named_step(b, j, name);
    assert(joins(a, more, fresh));
    assert forall|i: int| 0 <= i < grown.len() implies joins(a, more, #[trigger] grown[i]) by {
        if i != at {
            let k = if i < at { i } else { i - 1 };
            assert(grown[i] == matches[k]);
            assert(joins(a, seen, matches[k]));
            lemma_first_named_step(b, j, matches[k].name);
        }
    }
    assert forall|name2: Seq<char>| has_name(a, name2) && has_name(more, name2) implies #[trigger] lists(
        grown,
        name2,
    ) by {
        if name2 == name {
            assert(grown[at].name == name2);
        } else {
            lemma_first_named(more, name2);
            lemma_first_named(seen, name2);
            lemma_first_named_step(b, j, name2);
            assert(lists(matches, name2));
            let k = choose|k: int| 0 <= k < matches.len() && (#[trigger] matches[k]).name == name2;
            let i = if k < at { k } else { k + 1 };
            assert(grown[i] == matches[k]);
        }
    }
    assert forall|i: int, k: int| 0 <= i < k < grown.len() implies ordinal_lt(
        (#[trigger] grown[i]).name,
        (#[trigger] grown[k]).name,
    ) by {
        if k == at {
            assert(grown[i] == matches[i]);
        } else if i == at {
            assert(grown[k] == matches[k - 1]);
            lemma_total(matches[k - 1].name, name);
        } else {
            let i0 = if i < at { i } else { i - 1 };
            let k0 = if k < at { k } else { k - 1 };
            assert(grown[i] == matches[i0]);
            assert(grown[k] == matches[k0]);
        }
    }
}

/// The match list holds exactly the names that both snapshots hold: its
/// names are the intersection of theirs.
pub proof fn lemma_names_are_the_shared_ones(
    a: Seq<EntryView>,
    b: Seq<EntryView>,
    matches: Seq<MatchView>,
)
    requires
        is_match_list(a, b, matches),
    ensures
        forall|name: Seq<char>| lists(matches, name) <==> has_name(a, name) && has_name(b, name),
        listed_names(matches) == names_of(a).intersect(names_of(b)),
{
    assert forall|name: Seq<char>| lists(matches, name) implies has_name(a, name) && has_name(
        b,
        name,
    ) by {
        let i = choose|i: int| 0 <= i < matches.len() && (#[trigger] matches[i]).name == name;
        assert(joins(a, b, matches[i]));
        lemma_first_named(a, name);
        lemma_first_named(b, name);
    }
    assert(listed_names(matches) =~= names_of(a).intersect(names_of(b)));
}

/// An ascending list never descends: of two matches, the earlier one's name
/// is the later one's or comes before it, and never after it.
pub proof fn lemma_ascending_never_descends(matches: Seq<MatchView>, i: int, j: int)
    requires
        ascending(matches),
        0 <= i <= j < matches.len(),
    ensures
        ordinal_le(matches[i].name, matches[j].name),
        !ordinal_lt(matches[j].name, matches[i].name),
{
    lemma_irreflexive(matches[i].name);
    lemma_asymmetric(matches[i].name, matches[j].name);
}

/// Each match of the list is well paired, and its two sides are entries of
/// the two snapshots, unchanged: size and modification time are those that
/// the snapshots hold.
pub proof fn lemma_sides_are_the_entries(
    a: Seq<EntryView>,
    b: Seq<EntryView>,
    matches: Seq<MatchView>,
    i: int,
)
    requires
        is_match_list(a, b, matches),
        0 <= i < matches.len(),
    ensures
        matches[i].well_paired(),
        a.contains(matches[i].side_a),
        b.contains(matches[i].side_b),
{
    assert(joins(a, b, matches[i]));
    lemma_first_named(a, matches[i].name);
    lemma_first_named(b, matches[i].name);
}

/// Two ascending lists that hold the same names hold them at the same
/// places.
proof fn lemma_ascending_names_agree(x: Seq<MatchView>, y: Seq<MatchView>)
    requires
        ascending(x),
        ascending(y),
        forall|name: Seq<char>| lists(x, name) <==> lists(y, name),
    ensures
        x.len() == y.len(),
        forall|i: int| 0 <= i < x.len() ==> (#[trigger] x[i]).name == y[i].name,
    decreases x.len(),
{
    if x.len() == 0 {
        if y.len() > 0 {
            assert(lists(y, y[0].name));
        }
    } else if y.len() == 0 {
        assert(lists(x, x[0].name));
    } else {
        let top_x = x.last().name;
        let top_y = y.last().name;
        assert(lists(x, top_x));
        assert(lists(y, top_y));
        let k = choose|k: int| 0 <= k < y.len() && (#[trigger] y[k]).name == top_x;
        let l = choose|l: int| 0 <= l < x.len() && (#[trigger] x[l]).name == top_y;
        if top_x != top_y {
            assert(ordinal_lt(y[k].name, y.last().name));
            assert(ordinal_lt(x[l].name, x.last().name));
            lemma_asymmetric(top_x, top_y);
        }
        let front_x = x.drop_last();
        let front_y = y.drop_last();
        assert forall|name: Seq<char>| lists(front_x, name) implies lists(front_y, name) by {
            let i = choose|i: int| 0 <= i < front_x.len() && (#[trigger] front_x[i]).name == name;
            assert(ordinal_lt(x[i].name, x.last().name));
            lemma_irreflexive(top_x);
            assert(lists(x, name));
            let j = choose|j: int| 0 <= j < y.len() && (#[trigger] y[j]).name == name;
            assert(front_y[j].name == name);
        }
        assert forall|name: Seq<char>| lists(front_y, name) implies lists(front_x, name) by {
            let i = choose|i: int| 0 <= i < front_y.len() && (#[trigger] front_y[i]).name == name;
            assert(ordinal_lt(y[i].name, y.last().name));
            lemma_irreflexive(top_y);
            assert(lists(y, name));
            let j = choose|j: int| 0 <= j < x.len() && (#[trigger] x[j]).name == name;
            assert(front_x[j].name == name);
        }
        lemma_ascending_names_agree(front_x, front_y);
        assert forall|i: int| 0 <= i < x.len() implies (#[trigger] x[i]).name == y[i].name by {
            if i < x.len() - 1 {
                assert(front_x[i].name == front_y[i].name);
            }
        }
    }
}

/// Two snapshots have one match list only: whatever is a match list of
/// them is the same sequence, match for match. So a scan that is repeated
/// on unchanged folders gives the same list again.
pub proof fn lemma_match_list_is_unique(
    a: Seq<EntryView>,
    b: Seq<EntryView>,
    first: Seq<MatchView>,
    second: Seq<MatchView>,
)
    requires
        is_match_list(a, b, first),
        is_match_list(a, b, second),
    ensures
        first == second,
{
    lemma_names_are_the_shared_ones(a, b, first);
    lemma_names_are_the_shared_ones(a, b, second);
    lemma_ascending_names_agree(first, second);
    assert forall|i: int| 0 <= i < first.len() implies first[i] == second[i] by {
        assert(joins(a, b, first[i]));
        assert(joins(a, b, second[i]));
    }
    assert(first =~= second);
}

/// No two entries of the snapshot carry the same name.
pub open spec fn distinct_names(snapshot: Seq<EntryView>) -> bool {
    forall|i: int, j: int|
        0 <= i < j < snapshot.len() ==> (#[trigger] snapshot[i]).name != (
        #[trigger] snapshot[j]).name
}

/// The two snapshots hold the same entries, in whatever order.
pub open spec fn same_entries(x: Seq<EntryView>, y: Seq<EntryView>) -> bool {
    forall|e: EntryView| x.contains(e) <==> y.contains(e)
}

/// In a snapshot without a repeated name, the entry of a name is the first
/// of that name.
proof fn lemma_only_entry_is_first(snapshot: Seq<EntryView>, e: EntryView)
    requires
        distinct_names(snapshot),
        snapshot.contains(e),
    ensures
        first_named(snapshot, e.name) == Some(e),
{
    let k = choose|k: int| 0 <= k < snapshot.len() && snapshot[k] == e;
    lemma_first_where(snapshot, |x: EntryView| x.name == e.name);
}

/// The order in which a folder's files were enumerated does not show in the
/// match list: snapshots that hold the same entries in another order, none
/// with a repeated name, have the same match list.
pub proof fn lemma_enumeration_order_is_immaterial(
    a: Seq<EntryView>,
    a_reordered: Seq<EntryView>,
    b: Seq<EntryView>,
    b_reordered: Seq<EntryView>,
    matches: Seq<MatchView>,
    matches_reordered: Seq<MatchView>,
)
    requires
        distinct_names(a),
        distinct_names(a_reordered),
        distinct_names(b),
        distinct_names(b_reordered),
        same_entries(a, a_reordered),
        same_entries(b, b_reordered),
        is_match_list(a, b, matches),
        is_match_list(a_reordered, b_reordered, matches_reordered),
    ensures
        matches == matches_reordered,
{
    let other = matches_reordered;
    assert forall|i: int| 0 <= i < other.len() implies joins(a, b, #[trigger] other[i]) by {
        lemma_sides_are_the_entries(a_reordered, b_reordered, other, i);
        lemma_only_entry_is_first(a, other[i].side_a);
        lemma_only_entry_is_first(b, other[i].side_b);
    }
    assert forall|name: Seq<char>| has_name(a, name) && has_name(b, name) implies #[trigger] lists(
        other,
        name,
    ) by {
        lemma_first_named(a, name);
        lemma_first_named(b, name);
        lemma_first_named(a_reordered, name);
        lemma_first_named(b_reordered, name);
        let ea = first_named(a, name)->0;
        let eb = first_named(b, name)->0;
        lemma_only_entry_is_first(a_reordered, ea);
        lemma_only_entry_is_first(b_reordered, eb);
    }
    lemma_match_list_is_unique(a, b, matches, other);
}

/// The first entry of the snapshot that carries the name, if there is one.
pub fn find_named<'a>(snapshot: &'a Vec<DirectoryEntry>, name: &str) -> (r: Option<
    &'a DirectoryEntry,
>)
    ensures
        match r {
            Some(e) => first_named(entry_views(snapshot@), name@) == Some(e@),
            None => first_named(entry_views(snapshot@), name@) is None,
        },
{
    let ghost views = entry_views(snapshot@);
    let ghost named = |e: EntryView| e.name == name@;
    let mut i: usize = 0;
    while i < snapshot.len()
        invariant
            i <= snapshot.len(),
            views == entry_views(snapshot@),
            named == |e: EntryView| e.name == name@,
            forall|k: int| 0 <= k < i ==> !named(#[trigger] views[k]),
        decreases snapshot.len() - i,
    {
        if same_name(snapshot[i].name.as_str(), name) {
            proof {
                lemma_first_where_is(views, named, i as int);
            }
            return Some(&snapshot[i]);
        }
        i += 1;
    }
    proof {
        lemma_first_where(views, named);
    }
    None
}

/// Where a match of the name belongs in an ascending list.
pub(crate) fn insertion_point(matches: &Vec<MatchedFile>, name: &str) -> (at: usize)
    requires
        ascending(match_views(matches@)),
    ensures
        is_insertion_point(match_views(matches@), name@, at as int),
{
    let ghost views = match_views(matches@);
    let mut low: usize = 0;
    let mut high: usize = matches.len();
    while low < high
        invariant
            low <= high <= matches.len(),
            views == match_views(matches@),
            ascending(views),
            forall|k: int| 0 <= k < low ==> ordinal_lt((#[trigger] views[k]).name, name@),
            forall|k: int|
                high <= k < views.len() ==> !ordinal_lt((#[trigger] views[k]).name, name@),
        decreases high - low,
    {
        let mid = low + (high - low) / 2;
        if precedes(matches[mid].name().as_str(), name) {
            proof {
                assert forall|k: int| 0 <= k < mid + 1 implies ordinal_lt(
                    (#[trigger] views[k]).name,
                    name@,
                ) by {
                    if k < mid {
                        lemma_transitive(views[k].name, views[mid as int].name, name@);
                    }
                }
            }
            low = mid + 1;
        } else {
            proof {
                assert forall|k: int| mid <= k < views.len() implies !ordinal_lt(
                    (#[trigger] views[k]).name,
                    name@,
                ) by {
                    if k > mid && ordinal_lt(views[k].name, name@) {
                        lemma_transitive(views[mid as int].name, views[k].name, name@);
                    }
                }
            }
            high = mid;
        }
    }
    low
}

/// The match list of two snapshots: one match for each name that both hold,
/// and no other, in ascending ordinal order of name, whatever the order of
/// the snapshots.
pub fn resolve_matches(a: &Vec<DirectoryEntry>, b: &Vec<DirectoryEntry>) -> (r: Vec<MatchedFile>)
    ensures
        is_match_list(entry_views(a@), entry_views(b@), match_views(r@)),
        ascending(match_views(r@)),
        listed_names(match_views(r@)) == names_of(entry_views(a@)).intersect(
            names_of(entry_views(b@)),
        ),
{
    let ghost av = entry_views(a@);
    let ghost bv = entry_views(b@);
    let mut matches: Vec<MatchedFile> = Vec::new();
    let mut j: usize = 0;
    assert(bv.take(0) =~= Seq::<EntryView>::empty());
    while j < b.len()
        invariant
            j <= b.len(),
            av == entry_views(a@),
            bv == entry_views(b@),
            is_match_list(av, bv.take(j as int), match_views(matches@)),
        decreases b.len() - j,
    {
        let candidate = &b[j];
        let ghost listed = match_views(matches@);
        match find_named(a, candidate.name.as_str()) {
            None => {
                proof {
                    lemma_step_kept(av, bv, listed, j as int);
                }
            },
            Some(twin) => {
                let at = insertion_point(&matches, candidate.name.as_str());
                proof {
                    lemma_listed_at_insertion_point(listed, bv[j as int].name, at as int);
                }
                if at < matches.len() && same_name(
                    matches[at].name().as_str(),
                    candidate.name.as_str(),
                ) {
                    proof {
                        lemma_step_kept(av, bv, listed, j as int);
                    }
                } else {
                    proof {
                        lemma_step_new(av, bv, listed, j as int, twin@, at as int);
                    }
                    let fresh = MatchedFile::pair(twin.clone(), candidate.clone()).unwrap();
                    matches.insert(at, fresh);
                    assert(match_views(matches@) =~= listed.insert(
                        at as int,
                        paired(twin@, bv[j as int]),
                    ));
                }
            },
        }
        j += 1;
    }
    proof {
        assert(bv.take(j as int) =~= bv);
        lemma_names_are_the_shared_ones(av, bv, match_views(matches@));
    }
    matches
}

} // verus!
