use vstd::prelude::*;

verus! {

/// Position of the first element of `s` that satisfies `f`.
pub open spec fn first_match<A>(s: Seq<A>, f: spec_fn(A) -> bool) -> Option<int>
    decreases s.len(),
{
    if s.len() == 0 {
        None
    } else if f(s[0]) {
        Some(0)
    } else {
        match first_match(s.drop_first(), f) {
            Some(i) => Some(i + 1),
            None => None,
        }
    }
}

/// What the first match is.
pub proof fn lemma_first_match<A>(s: Seq<A>, f: spec_fn(A) -> bool)
    ensures
        match first_match(s, f) {
            Some(i) => 0 <= i < s.len() && f(s[i]) && forall|j: int| 0 <= j < i ==> !f(#[trigger] s[j]),
            None => forall|j: int| 0 <= j < s.len() ==> !f(#[trigger] s[j]),
        },
    decreases s.len(),
{
    if s.len() > 0 && !f(s[0]) {
        lemma_first_match(s.drop_first(), f);
        assert forall|j: int| 0 < j < s.len() implies s[j] == s.drop_first()[j - 1] by {}
    }
}

/// An element that satisfies `f` after elements that do not is the first
/// match.
pub proof fn lemma_first_match_at<A>(s: Seq<A>, f: spec_fn(A) -> bool, i: int)
    requires
        0 <= i < s.len(),
        f(s[i]),
        forall|j: int| 0 <= j < i ==> !f(#[trigger] s[j]),
    ensures
        first_match(s, f) == Some(i),
    decreases i,
{
    if i > 0 {
        assert forall|j: int| 0 <= j < i - 1 implies !f(#[trigger] s.drop_first()[j]) by {
            assert(s.drop_first()[j] == s[j + 1]);
        }
        lemma_first_match_at(s.drop_first(), f, i - 1);
    }
}

/// When no element satisfies `f` there is no match.
pub proof fn lemma_first_match_none<A>(s: Seq<A>, f: spec_fn(A) -> bool)
    requires
        forall|j: int| 0 <= j < s.len() ==> !f(#[trigger] s[j]),
    ensures
        first_match(s, f) is None,
{
    lemma_first_match(s, f);
    if let Some(i) = first_match(s, f) {
        assert(!f(s[i]));
    }
}


/// Position of the last element of `s` that satisfies `f`.
pub open spec fn last_match<A>(s: Seq<A>, f: spec_fn(A) -> bool) -> Option<int>
    decreases s.len(),
{
    if s.len() == 0 {
        None
    } else if f(s.last()) {
        Some(s.len() - 1)
    } else {
        last_match(s.drop_last(), f)
    }
}

/// An element that satisfies `f` before elements that do not is the last
/// match.
pub proof fn lemma_last_match_at<A>(s: Seq<A>, f: spec_fn(A) -> bool, i: int)
    requires
        0 <= i < s.len(),
        f(s[i]),
        forall|j: int| i < j < s.len() ==> !f(#[trigger] s[j]),
    ensures
        last_match(s, f) == Some(i),
    decreases s.len(),
{
    if i < s.len() - 1 {
        assert(!f(s[s.len() - 1]));
        assert forall|j: int| i < j < s.drop_last().len() implies !f(#[trigger] s.drop_last()[j]) by {
            assert(s.drop_last()[j] == s[j]);
        }
        lemma_last_match_at(s.drop_last(), f, i);
    }
}

/// When no element satisfies `f` there is no last match.
pub proof fn lemma_last_match_none<A>(s: Seq<A>, f: spec_fn(A) -> bool)
    requires
        forall|j: int| 0 <= j < s.len() ==> !f(#[trigger] s[j]),
    ensures
        last_match(s, f) is None,
    decreases s.len(),
{
    if s.len() > 0 {
        assert(!f(s[s.len() - 1]));
        assert forall|j: int| 0 <= j < s.drop_last().len() implies !f(#[trigger] s.drop_last()[j]) by {
            assert(s.drop_last()[j] == s[j]);
        }
        lemma_last_match_none(s.drop_last(), f);
    }
}


/// The elements after a push are the old ones and the new one.
pub proof fn lemma_push_to_set<A>(s: Seq<A>, x: A)
    ensures
        s.push(x).to_set() == s.to_set().insert(x),
{
    assert forall|t: A| s.push(x).to_set().contains(t) <==> s.to_set().insert(x).contains(t) by {
        if s.push(x).contains(t) {
            let k = choose|k: int| 0 <= k < s.push(x).len() && s.push(x)[k] == t;
            if k < s.len() {
                assert(s[k] == t);
            }
        }
        if s.contains(t) {
            let k = choose|k: int| 0 <= k < s.len() && s[k] == t;
            assert(s.push(x)[k] == t);
        }
        if t == x {
            assert(s.push(x)[s.len() as int] == t);
        }
    }
    assert(s.push(x).to_set() =~= s.to_set().insert(x));
}

/// How many leading elements of `s` the element `x` does not come before.
pub open spec fn leading_not_after<A>(s: Seq<A>, x: A, before: spec_fn(A, A) -> bool) -> int
    decreases s.len(),
{
    if s.len() == 0 {
        0
    } else if !before(x, s[0]) {
        1 + leading_not_after(s.drop_first(), x, before)
    } else {
        0
    }
}

/// The elements in the order `before`, keeping the order of elements that
/// neither comes before the other: the stable insertion sort that
/// `sort_by` performs.
pub open spec fn stable_sort<A>(s: Seq<A>, before: spec_fn(A, A) -> bool) -> Seq<A>
    decreases s.len(),
{
    if s.len() == 0 {
        Seq::empty()
    } else {
        let p = stable_sort(s.drop_last(), before);
        p.insert(leading_not_after(p, s.last(), before), s.last())
    }
}

/// No later element comes before an earlier one.
pub open spec fn sorted_by<A>(s: Seq<A>, before: spec_fn(A, A) -> bool) -> bool {
    forall|i: int, j: int| 0 <= i < j < s.len() ==> !before(#[trigger] s[j], #[trigger] s[i])
}

/// `before` is a strict order: irreflexive and transitive.
pub open spec fn strict_order<A>(before: spec_fn(A, A) -> bool) -> bool {
    &&& forall|a: A| !#[trigger] before(a, a)
    &&& forall|a: A, b: A, c: A| #[trigger] before(a, b) && #[trigger] before(b, c) ==> before(a, c)
}

/// Where the insertion point lies.
pub proof fn lemma_leading_not_after<A>(s: Seq<A>, x: A, before: spec_fn(A, A) -> bool)
    ensures
        0 <= leading_not_after(s, x, before) <= s.len(),
        forall|j: int| 0 <= j < leading_not_after(s, x, before) ==> !before(x, #[trigger] s[j]),
        leading_not_after(s, x, before) < s.len() ==> before(x, s[leading_not_after(s, x, before)]),
    decreases s.len(),
{
    if s.len() > 0 && !before(x, s[0]) {
        lemma_leading_not_after(s.drop_first(), x, before);
        assert forall|j: int| 0 <= j < leading_not_after(s, x, before) implies !before(x, #[trigger] s[j]) by {
            if j > 0 {
                assert(s[j] == s.drop_first()[j - 1]);
            }
        }
    }
}

/// The stable sort by a strict order leaves the elements sorted by it, and
/// keeps their number.
pub proof fn lemma_stable_sort_sorted<A>(s: Seq<A>, before: spec_fn(A, A) -> bool)
    requires
        strict_order(before),
    ensures
        sorted_by(stable_sort(s, before), before),
        stable_sort(s, before).len() == s.len(),
    decreases s.len(),
{
    if s.len() > 0 {
        let p = stable_sort(s.drop_last(), before);
        lemma_stable_sort_sorted(s.drop_last(), before);
        let x = s.last();
        let k = leading_not_after(p, x, before);
        lemma_leading_not_after(p, x, before);
        let r = p.insert(k, x);
        assert forall|i: int, j: int| 0 <= i < j < r.len() implies !before(#[trigger] r[j], #[trigger] r[i]) by {
            if j < k {
                assert(r[i] == p[i] && r[j] == p[j]);
            } else if j == k {
                assert(r[i] == p[i]);
            } else if i < k {
                assert(r[i] == p[i] && r[j] == p[j - 1]);
            } else if i == k {
                assert(r[j] == p[j - 1]);
                if before(p[j - 1], x) {
                    assert(before(x, p[k]));
                    if j - 1 == k {
                        assert(before(p[k], p[k]));
                    } else {
                        assert(before(p[j - 1], p[k]));
                    }
                }
            } else {
                assert(r[i] == p[i - 1] && r[j] == p[j - 1]);
            }
        }
    }
}

} // verus!
