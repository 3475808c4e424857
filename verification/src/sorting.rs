//! Stable insertion sort, as a specification.
//!
//! Both orderings of the router are stable sorts: scope matches are
//! ordered by ascending pattern specificity, chain candidates by ascending
//! priority; in both, ties keep the order in which candidates were
//! collected.  The executable sorts of those modules are proved equal to
//! these spec functions.

use vstd::prelude::*;

verus! {

/// Inserts `e` into `s` from the right: `e` moves left past every element
/// it is strictly below, and stops behind the first element it is not;
/// equal elements therefore keep their collection order.
pub open spec fn stable_insert<E>(s: Seq<E>, e: E, lt: spec_fn(E, E) -> bool) -> Seq<E>
    decreases s.len(),
{
    if s.len() == 0 {
        seq![e]
    } else if lt(e, s.last()) {
        stable_insert(s.drop_last(), e, lt).push(s.last())
    } else {
        s.push(e)
    }
}

/// Stable insertion sort by the strict order `lt`.
pub open spec fn stable_sort<E>(s: Seq<E>, lt: spec_fn(E, E) -> bool) -> Seq<E>
    decreases s.len(),
{
    if s.len() == 0 {
        Seq::empty()
    } else {
        stable_insert(stable_sort(s.drop_last(), lt), s.last(), lt)
    }
}

/// Where the insertion lands: if everything from `j` on is strictly above
/// `e` and the element before `j` (if any) is not, `e` lands at `j`.
pub proof fn lemma_stable_insert_at<E>(s: Seq<E>, e: E, lt: spec_fn(E, E) -> bool, j: int)
    requires
        0 <= j <= s.len(),
        forall|k: int| j <= k < s.len() ==> lt(e, #[trigger] s[k]),
        j > 0 ==> !lt(e, s[j - 1]),
    ensures
        stable_insert(s, e, lt) == s.take(j) + seq![e] + s.skip(j),
    decreases s.len(),
{
    if s.len() == 0 {
        assert(stable_insert(s, e, lt) =~= s.take(j) + seq![e] + s.skip(j));
    } else if j == s.len() {
        assert(stable_insert(s, e, lt) == s.push(e));
        assert(s.push(e) =~= s.take(j) + seq![e] + s.skip(j));
    } else {
        assert(lt(e, s.last()));
        lemma_stable_insert_at(s.drop_last(), e, lt, j);
        assert(stable_insert(s.drop_last(), e, lt).push(s.last()) =~= s.take(j) + seq![e] + s.skip(
            j,
        ));
    }
}

/// In order with respect to `lt`: no later element is strictly below an
/// earlier one.
pub open spec fn sorted_by<E>(s: Seq<E>, lt: spec_fn(E, E) -> bool) -> bool {
    forall|i: int, j: int| 0 <= i < j < s.len() ==> !lt(#[trigger] s[j], #[trigger] s[i])
}

/// Insertion adds one element.
pub proof fn lemma_stable_insert_len<E>(s: Seq<E>, e: E, lt: spec_fn(E, E) -> bool)
    ensures
        stable_insert(s, e, lt).len() == s.len() + 1,
    decreases s.len(),
{
    if s.len() > 0 && lt(e, s.last()) {
        lemma_stable_insert_len(s.drop_last(), e, lt);
    }
}

/// Every element of the insertion is the inserted one or one of the old.
pub proof fn lemma_stable_insert_elts<E>(s: Seq<E>, e: E, lt: spec_fn(E, E) -> bool, idx: int)
    requires
        0 <= idx < stable_insert(s, e, lt).len(),
    ensures
        stable_insert(s, e, lt)[idx] == e || s.contains(stable_insert(s, e, lt)[idx]),
    decreases s.len(),
{
    lemma_stable_insert_len(s, e, lt);
    if s.len() == 0 {
    } else if lt(e, s.last()) {
        let front = stable_insert(s.drop_last(), e, lt);
        lemma_stable_insert_len(s.drop_last(), e, lt);
        if idx < front.len() {
            lemma_stable_insert_elts(s.drop_last(), e, lt, idx);
            if s.drop_last().contains(front[idx]) {
                let k = choose|k: int| 0 <= k < s.len() - 1 && s.drop_last()[k] == front[idx];
                assert(s[k] == front[idx]);
            }
        } else {
            assert(stable_insert(s, e, lt)[idx] == s.last());
            assert(s[s.len() - 1] == s.last());
        }
    } else {
        if idx < s.len() {
            assert(s[idx] == stable_insert(s, e, lt)[idx]);
        }
    }
}

/// Provided "not strictly below" is transitive and `lt` asymmetric (both
/// hold of any strict order on integers), inserting into an ordered
/// sequence keeps it ordered.
pub proof fn lemma_stable_insert_sorted<E>(s: Seq<E>, e: E, lt: spec_fn(E, E) -> bool)
    requires
        sorted_by(s, lt),
        forall|a: E, b: E, c: E| !#[trigger] lt(b, a) && !#[trigger] lt(c, b) ==> !lt(c, a),
        forall|a: E, b: E| #[trigger] lt(a, b) ==> !lt(b, a),
    ensures
        sorted_by(stable_insert(s, e, lt), lt),
    decreases s.len(),
{
    let r = stable_insert(s, e, lt);
    lemma_stable_insert_len(s, e, lt);
    if s.len() == 0 {
    } else if lt(e, s.last()) {
        let front = stable_insert(s.drop_last(), e, lt);
        lemma_stable_insert_len(s.drop_last(), e, lt);
        assert(sorted_by(s.drop_last(), lt)) by {
            assert forall|i: int, j: int| 0 <= i < j < s.len() - 1 implies !lt(
                #[trigger] s.drop_last()[j],
                #[trigger] s.drop_last()[i],
            ) by {
                assert(s.drop_last()[j] == s[j] && s.drop_last()[i] == s[i]);
            }
        }
        lemma_stable_insert_sorted(s.drop_last(), e, lt);
        assert forall|i: int, j: int| 0 <= i < j < r.len() implies !lt(
            #[trigger] r[j],
            #[trigger] r[i],
        ) by {
            if j < front.len() {
                assert(r[j] == front[j] && r[i] == front[i]);
            } else {
                assert(r[j] == s.last());
                assert(r[i] == front[i]);
                lemma_stable_insert_elts(s.drop_last(), e, lt, i);
                if front[i] == e {
                    assert(!lt(s.last(), e));
                } else {
                    let k = choose|k: int|
                        0 <= k < s.len() - 1 && s.drop_last()[k] == front[i];
                    assert(s[k] == front[i]);
                    assert(!lt(s[s.len() - 1], s[k]));
                }
            }
        }
    } else {
        assert forall|i: int, j: int| 0 <= i < j < r.len() implies !lt(
            #[trigger] r[j],
            #[trigger] r[i],
        ) by {
            if j < s.len() {
                assert(r[j] == s[j] && r[i] == s[i]);
            } else {
                assert(r[j] == e);
                assert(r[i] == s[i]);
                if i < s.len() - 1 {
                    assert(!lt(s.last(), s[i]));
                    assert(!lt(e, s.last()));
                } else {
                    assert(s[i] == s.last());
                }
            }
        }
    }
}

/// The stable sort orders its input (under the same two conditions).
pub proof fn lemma_stable_sort_sorted<E>(s: Seq<E>, lt: spec_fn(E, E) -> bool)
    requires
        forall|a: E, b: E, c: E| !#[trigger] lt(b, a) && !#[trigger] lt(c, b) ==> !lt(c, a),
        forall|a: E, b: E| #[trigger] lt(a, b) ==> !lt(b, a),
    ensures
        sorted_by(stable_sort(s, lt), lt),
    decreases s.len(),
{
    if s.len() > 0 {
        lemma_stable_sort_sorted(s.drop_last(), lt);
        lemma_stable_insert_sorted(stable_sort(s.drop_last(), lt), s.last(), lt);
    }
}

/// Filtering commutes with appending one element.
pub proof fn lemma_filter_push<A>(s: Seq<A>, pred: spec_fn(A) -> bool, x: A)
    ensures
        s.push(x).filter(pred) == if pred(x) {
            s.filter(pred).push(x)
        } else {
            s.filter(pred)
        },
{
    reveal(Seq::filter);
    assert(s.push(x).drop_last() =~= s);
    assert(s.push(x).last() == x);
}

/// Keeps only the first occurrence of each element, preserving order.
pub open spec fn dedup_first<A>(s: Seq<A>) -> Seq<A>
    decreases s.len(),
{
    if s.len() == 0 {
        Seq::empty()
    } else {
        let front = dedup_first(s.drop_last());
        if s.drop_last().contains(s.last()) {
            front
        } else {
            front.push(s.last())
        }
    }
}

/// Deduplication keeps exactly the elements that were present.
pub proof fn lemma_dedup_first_contains<A>(s: Seq<A>, x: A)
    ensures
        dedup_first(s).contains(x) <==> s.contains(x),
    decreases s.len(),
{
    if s.len() > 0 {
        let d = s.drop_last();
        lemma_dedup_first_contains(d, x);
        if d.contains(x) {
            let i = choose|i: int| 0 <= i < d.len() && d[i] == x;
            assert(s[i] == x);
        }
        if x == s.last() {
            assert(s[s.len() - 1] == x);
        }
        if s.contains(x) && x != s.last() {
            let i = choose|i: int| 0 <= i < s.len() && s[i] == x;
            assert(d[i] == x);
        }
        if !d.contains(s.last()) {
            let p = dedup_first(d).push(s.last());
            if p.contains(x) {
                let i = choose|i: int| 0 <= i < p.len() && p[i] == x;
                if i < p.len() - 1 {
                    assert(dedup_first(d)[i] == x);
                }
            }
            if x == s.last() {
                assert(p[p.len() - 1] == x);
            }
            if dedup_first(d).contains(x) {
                let i = choose|i: int| 0 <= i < dedup_first(d).len() && dedup_first(d)[i] == x;
                assert(p[i] == x);
            }
        }
    }
}

} // verus!
