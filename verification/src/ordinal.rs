//! The ordinal order on file names: lexicographic by code point, with a
//! proper prefix before every extension of it. No locale is involved.

use vstd::prelude::*;
use vstd::std_specs::iter::IteratorSpec;

verus! {

/// The code point of a character.
pub open spec fn code_point(c: char) -> int {
    c as int
}

/// `a` and `b` are both at least `k` long and agree on their first `k`
/// characters.
pub open spec fn agree_before(a: Seq<char>, b: Seq<char>, k: int) -> bool {
    &&& 0 <= k <= a.len()
    &&& k <= b.len()
    &&& forall|i: int| 0 <= i < k ==> a[i] == b[i]
}

/// Position `k` is where `a` falls below `b`: up to there they agree, and
/// there `a` ends while `b` goes on, or `a` holds the smaller code point.
pub open spec fn falls_below_at(a: Seq<char>, b: Seq<char>, k: int) -> bool {
    &&& agree_before(a, b, k)
    &&& k < b.len()
    &&& k < a.len() ==> code_point(a[k]) < code_point(b[k])
}

/// `a` comes strictly before `b` in ordinal order.
pub open spec fn ordinal_lt(a: Seq<char>, b: Seq<char>) -> bool {
    exists|k: int| falls_below_at(a, b, k)
}

/// `a` comes before `b` in ordinal order, or is `b`.
pub open spec fn ordinal_le(a: Seq<char>, b: Seq<char>) -> bool {
    a == b || ordinal_lt(a, b)
}

/// No name comes before itself.
pub proof fn lemma_irreflexive(a: Seq<char>)
    ensures
        !ordinal_lt(a, a),
{
}

/// Of two names, at most one comes before the other.
pub proof fn lemma_asymmetric(a: Seq<char>, b: Seq<char>)
    ensures
        !(ordinal_lt(a, b) && ordinal_lt(b, a)),
{
    if ordinal_lt(a, b) && ordinal_lt(b, a) {
        let i = choose|k: int| falls_below_at(a, b, k);
        let j = choose|k: int| falls_below_at(b, a, k);
        assert(i == j || i < j || j < i);
    }
}

/// The order is transitive.
pub proof fn lemma_transitive(a: Seq<char>, b: Seq<char>, c: Seq<char>)
    requires
        ordinal_lt(a, b),
        ordinal_lt(b, c),
    ensures
        ordinal_lt(a, c),
{
    let i = choose|k: int| falls_below_at(a, b, k);
    let j = choose|k: int| falls_below_at(b, c, k);
    let m = if i <= j { i } else { j };
    assert(falls_below_at(a, c, m));
}

/// Two names that agree on their first `k` characters and are not the same
/// name are ordered one way or the other.
proof fn lemma_ordered_from(a: Seq<char>, b: Seq<char>, k: int)
    requires
        agree_before(a, b, k),
        a != b,
    ensures
        ordinal_lt(a, b) || ordinal_lt(b, a),
    decreases a.len() - k,
{
    if k == a.len() {
        if k == b.len() {
            assert(a =~= b);
        } else {
            assert(falls_below_at(a, b, k));
        }
    } else if k == b.len() {
        assert(agree_before(b, a, k));
        assert(falls_below_at(b, a, k));
    } else if a[k] != b[k] {
        if code_point(a[k]) < code_point(b[k]) {
            assert(falls_below_at(a, b, k));
        } else {
            assert(agree_before(b, a, k));
            assert(falls_below_at(b, a, k));
        }
    } else {
        lemma_ordered_from(a, b, k + 1);
    }
}

/// The order is total: two different names are ordered one way or the other.
pub proof fn lemma_total(a: Seq<char>, b: Seq<char>)
    ensures
        a == b || ordinal_lt(a, b) || ordinal_lt(b, a),
{
    if a != b {
        lemma_ordered_from(a, b, 0);
    }
}

/// How one name stands to another in ordinal order.
#[derive(Clone, Copy, Debug, PartialEq, Eq, Structural)]
pub enum Rank {
    Before,
    Same,
    After,
}

/// How `a` stands to `b` in ordinal order.
pub open spec fn rank_of(a: Seq<char>, b: Seq<char>) -> Rank {
    if a == b {
        Rank::Same
    } else if ordinal_lt(a, b) {
        Rank::Before
    } else {
        Rank::After
    }
}

/// How `a` stands to `b` in ordinal order.
pub fn rank(a: &str, b: &str) -> (r: Rank)
    ensures
        r == rank_of(a@, b@),
        r == Rank::After <==> ordinal_lt(b@, a@),
{
    let mut rest_a = a.chars();
    let mut rest_b = b.chars();
    let ghost mut k: int = 0;
    proof {
        lemma_irreflexive(a@);
        lemma_asymmetric(a@, b@);
    }
    loop
        invariant
            agree_before(a@, b@, k),
            rest_a.remaining() == a@.skip(k),
            rest_b.remaining() == b@.skip(k),
            rest_a.obeys_prophetic_iter_laws(),
            rest_b.obeys_prophetic_iter_laws(),
            !ordinal_lt(a@, a@),
            !(ordinal_lt(a@, b@) && ordinal_lt(b@, a@)),
        decreases a@.len() - k,
    {
        let next_a = rest_a.next();
        let next_b = rest_b.next();
        match (next_a, next_b) {
            (None, None) => {
                assert(a@ =~= b@);
                return Rank::Same;
            },
            (None, Some(_)) => {
                assert(falls_below_at(a@, b@, k));
                return Rank::Before;
            },
            (Some(_), None) => {
                assert(agree_before(b@, a@, k));
                assert(falls_below_at(b@, a@, k));
                return Rank::After;
            },
            (Some(x), Some(y)) => {
                if x != y {
                    assert(x == a@[k]);
                    assert(y == b@[k]);
                    assert(agree_before(b@, a@, k));
                    if x < y {
                        assert(falls_below_at(a@, b@, k));
                        return Rank::Before;
                    } else {
                        assert(falls_below_at(b@, a@, k));
                        return Rank::After;
                    }
                }
                proof {
                    assert(a@.skip(k).drop_first() =~= a@.skip(k + 1));
                    assert(b@.skip(k).drop_first() =~= b@.skip(k + 1));
                    k = k + 1;
                }
            },
        }
    }
}

/// Whether `a` comes strictly before `b` in ordinal order.
pub fn precedes(a: &str, b: &str) -> (r: bool)
    ensures
        r == ordinal_lt(a@, b@),
{
    match rank(a, b) {
        Rank::Before => true,
        _ => false,
    }
}

/// Whether `a` and `b` are the same name, character for character.
pub fn same_name(a: &str, b: &str) -> (r: bool)
    ensures
        r == (a@ == b@),
{
    match rank(a, b) {
        Rank::Same => true,
        _ => false,
    }
}

} // verus!
