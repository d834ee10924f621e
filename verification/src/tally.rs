//! Counting elements of a sequence that satisfy a predicate, and facts
//! about duplicate-free sequences, used for the engine's running tallies
//! (payout flags, votes) and for the payout-queue permutation invariant.

use vstd::prelude::*;

verus! {

/// How many elements of `s` satisfy `p`.
pub open spec fn count_where<A>(s: Seq<A>, p: spec_fn(A) -> bool) -> int
    decreases s.len(),
{
    if s.len() == 0 {
        0
    } else {
        count_where(s.drop_last(), p) + (if p(s.last()) {
            1int
        } else {
            0int
        })
    }
}

pub proof fn lemma_count_where_bounds<A>(s: Seq<A>, p: spec_fn(A) -> bool)
    ensures
        0 <= count_where(s, p) <= s.len(),
    decreases s.len(),
{
    if s.len() > 0 {
        lemma_count_where_bounds(s.drop_last(), p);
    }
}

pub proof fn lemma_count_where_push<A>(s: Seq<A>, p: spec_fn(A) -> bool, x: A)
    ensures
        count_where(s.push(x), p) == count_where(s, p) + (if p(x) {
            1int
        } else {
            0int
        }),
{
    assert(s.push(x).drop_last() =~= s);
    assert(s.push(x).last() == x);
}

pub proof fn lemma_count_where_update<A>(s: Seq<A>, p: spec_fn(A) -> bool, i: int, x: A)
    requires
        0 <= i < s.len(),
    ensures
        count_where(s.update(i, x), p) == count_where(s, p) - (if p(s[i]) {
            1int
        } else {
            0int
        }) + (if p(x) {
            1int
        } else {
            0int
        }),
    decreases s.len(),
{
    if i == s.len() - 1 {
        assert(s.update(i, x).drop_last() =~= s.drop_last());
        assert(s.update(i, x).last() == x);
    } else {
        assert(s.update(i, x).drop_last() =~= s.drop_last().update(i, x));
        assert(s.update(i, x).last() == s.last());
        lemma_count_where_update(s.drop_last(), p, i, x);
    }
}

pub proof fn lemma_count_where_remove<A>(s: Seq<A>, p: spec_fn(A) -> bool, i: int)
    requires
        0 <= i < s.len(),
    ensures
        count_where(s.remove(i), p) == count_where(s, p) - (if p(s[i]) {
            1int
        } else {
            0int
        }),
    decreases s.len(),
{
    if i == s.len() - 1 {
        assert(s.remove(i) =~= s.drop_last());
    } else {
        assert(s.remove(i).drop_last() =~= s.drop_last().remove(i));
        assert(s.remove(i).last() == s.last());
        lemma_count_where_remove(s.drop_last(), p, i);
    }
}

/// The tally reaches the length exactly when every element satisfies `p`.
pub proof fn lemma_count_where_all<A>(s: Seq<A>, p: spec_fn(A) -> bool)
    ensures
        (count_where(s, p) == s.len()) <==> (forall|i: int| 0 <= i < s.len() ==> p(s[i])),
    decreases s.len(),
{
    if s.len() > 0 {
        lemma_count_where_all(s.drop_last(), p);
        lemma_count_where_bounds(s.drop_last(), p);
        if count_where(s, p) == s.len() {
            assert forall|i: int| 0 <= i < s.len() implies p(s[i]) by {
                if i < s.len() - 1 {
                    assert(s.drop_last()[i] == s[i]);
                } else {
                    assert(s.last() == s[i]);
                }
            }
        }
        if forall|i: int| 0 <= i < s.len() ==> p(s[i]) {
            assert forall|i: int| 0 <= i < s.drop_last().len() implies p(s.drop_last()[i]) by {
                assert(s.drop_last()[i] == s[i]);
            }
            assert(p(s.last()));
        }
    }
}

/// The tally is zero exactly when no element satisfies `p`.
pub proof fn lemma_count_where_zero<A>(s: Seq<A>, p: spec_fn(A) -> bool)
    ensures
        (count_where(s, p) == 0) <==> (forall|i: int| 0 <= i < s.len() ==> !p(s[i])),
    decreases s.len(),
{
    if s.len() > 0 {
        lemma_count_where_zero(s.drop_last(), p);
        lemma_count_where_bounds(s.drop_last(), p);
        if count_where(s, p) == 0 {
            assert forall|i: int| 0 <= i < s.len() implies !p(s[i]) by {
                if i < s.len() - 1 {
                    assert(s.drop_last()[i] == s[i]);
                } else {
                    assert(s.last() == s[i]);
                }
            }
        }
        if forall|i: int| 0 <= i < s.len() ==> !p(s[i]) {
            assert forall|i: int| 0 <= i < s.drop_last().len() implies !p(s.drop_last()[i]) by {
                assert(s.drop_last()[i] == s[i]);
            }
            assert(!p(s.last()));
        }
    }
}

/// Mapping a sequence does not change a tally whose predicate the map
/// preserves.
pub proof fn lemma_count_where_map<A, B>(
    s: Seq<A>,
    f: spec_fn(A) -> B,
    p: spec_fn(B) -> bool,
    q: spec_fn(A) -> bool,
)
    requires
        forall|a: A| p(#[trigger] f(a)) == q(a),
    ensures
        count_where(s.map_values(f), p) == count_where(s, q),
    decreases s.len(),
{
    if s.len() > 0 {
        assert(s.map_values(f).drop_last() =~= s.drop_last().map_values(f));
        assert(s.map_values(f).last() == f(s.last()));
        lemma_count_where_map(s.drop_last(), f, p, q);
    }
}

/// Two sequences on which a predicate agrees pointwise carry the same
/// tally.
pub proof fn lemma_count_where_pointwise<A>(s: Seq<A>, t: Seq<A>, p: spec_fn(A) -> bool)
    requires
        s.len() == t.len(),
        forall|j: int| 0 <= j < s.len() ==> p(s[j]) == p(t[j]),
    ensures
        count_where(s, p) == count_where(t, p),
    decreases s.len(),
{
    if s.len() > 0 {
        assert forall|j: int|
            0 <= j < s.drop_last().len() implies p(s.drop_last()[j]) == p(
            t.drop_last()[j],
        ) by {
            assert(s.drop_last()[j] == s[j] && t.drop_last()[j] == t[j]);
        }
        assert(p(s.last()) == p(t.last()));
        lemma_count_where_pointwise(s.drop_last(), t.drop_last(), p);
    }
}

/// Replacing one element keeps a sequence duplicate-free, provided the
/// new element occurs nowhere else.
pub proof fn lemma_no_dup_update<A>(s: Seq<A>, i: int, x: A)
    requires
        s.no_duplicates(),
        0 <= i < s.len(),
        forall|j: int| 0 <= j < s.len() && j != i ==> s[j] != x,
    ensures
        s.update(i, x).no_duplicates(),
{
}

/// What a duplicate-free sequence contains after one replacement.
pub proof fn lemma_no_dup_update_contains<A>(s: Seq<A>, i: int, x: A)
    requires
        s.no_duplicates(),
        0 <= i < s.len(),
    ensures
        forall|a: A|
            s.update(i, x).contains(a) <==> (a == x || (s.contains(a) && a != s[i])),
{
    assert forall|a: A|
        s.update(i, x).contains(a) <==> (a == x || (s.contains(a) && a != s[i])) by {
        if s.update(i, x).contains(a) {
            let j = choose|j: int| 0 <= j < s.len() && s.update(i, x)[j] == a;
            if j != i {
                assert(s[j] == a);
            }
        }
        if a == x {
            assert(s.update(i, x)[i] == a);
        } else if s.contains(a) && a != s[i] {
            let j = choose|j: int| 0 <= j < s.len() && s[j] == a;
            assert(s.update(i, x)[j] == a);
        }
    }
}

/// Removing an element keeps a sequence duplicate-free.
pub proof fn lemma_no_dup_remove<A>(s: Seq<A>, i: int)
    requires
        s.no_duplicates(),
        0 <= i < s.len(),
    ensures
        s.remove(i).no_duplicates(),
{
}

/// What a duplicate-free sequence contains after removing position `i`.
pub proof fn lemma_no_dup_remove_contains<A>(s: Seq<A>, i: int)
    requires
        s.no_duplicates(),
        0 <= i < s.len(),
    ensures
        forall|a: A| s.remove(i).contains(a) <==> (s.contains(a) && a != s[i]),
{
    assert forall|a: A| s.remove(i).contains(a) <==> (s.contains(a) && a != s[i]) by {
        if s.remove(i).contains(a) {
            let j = choose|j: int| 0 <= j < s.remove(i).len() && s.remove(i)[j] == a;
            if j < i {
                assert(s[j] == a);
            } else {
                assert(s[j + 1] == a);
            }
        }
        if s.contains(a) && a != s[i] {
            let j = choose|j: int| 0 <= j < s.len() && s[j] == a;
            if j < i {
                assert(s.remove(i)[j] == a);
            } else {
                assert(s.remove(i)[j - 1] == a);
            }
        }
    }
}

/// In a duplicate-free sequence, a position holding `s[i]` is the one
/// `index_of` names.
pub proof fn lemma_index_of_unique<A>(s: Seq<A>, i: int)
    requires
        s.no_duplicates(),
        0 <= i < s.len(),
    ensures
        s.index_of(s[i]) == i,
{
    let j = s.index_of(s[i]);
    assert(0 <= j < s.len() && s[j] == s[i]);
}

/// Two duplicate-free sequences over the same set of elements carry the
/// same multiset: each is a permutation of the other.
pub proof fn lemma_no_dup_same_set_same_multiset<A>(a: Seq<A>, b: Seq<A>)
    requires
        a.no_duplicates(),
        b.no_duplicates(),
        forall|x: A| a.contains(x) <==> b.contains(x),
    ensures
        a.to_multiset() =~= b.to_multiset(),
{
    broadcast use vstd::seq_lib::group_to_multiset_ensures;

    a.lemma_multiset_has_no_duplicates();
    b.lemma_multiset_has_no_duplicates();
    assert forall|x: A| a.to_multiset().count(x) == b.to_multiset().count(x) by {
        if a.contains(x) {
            assert(a.to_multiset().count(x) > 0);
            assert(b.to_multiset().count(x) > 0);
            assert(a.to_multiset().count(x) == 1);
            assert(b.to_multiset().count(x) == 1);
        } else {
            assert(a.to_multiset().count(x) == 0);
            assert(b.to_multiset().count(x) == 0);
        }
    }
}

} // verus!
