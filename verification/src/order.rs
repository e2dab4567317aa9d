use vstd::prelude::*;

verus! {

/// `a` comes strictly before `b` in the lexicographic order of character
/// values (the order of `String`, as UTF-8 keeps the order of code points).
pub open spec fn str_lt(a: Seq<char>, b: Seq<char>) -> bool
    decreases a.len(),
{
    if a.len() == 0 {
        b.len() > 0
    } else if b.len() == 0 {
        false
    } else if a[0] != b[0] {
        a[0] < b[0]
    } else {
        str_lt(a.drop_first(), b.drop_first())
    }
}

/// No text comes before itself.
pub proof fn lemma_str_lt_irreflexive(a: Seq<char>)
    ensures
        !str_lt(a, a),
    decreases a.len(),
{
    if a.len() > 0 {
        lemma_str_lt_irreflexive(a.drop_first());
    }
}

/// The order is transitive.
pub proof fn lemma_str_lt_transitive(a: Seq<char>, b: Seq<char>, c: Seq<char>)
    requires
        str_lt(a, b),
        str_lt(b, c),
    ensures
        str_lt(a, c),
    decreases a.len(),
{
    if a.len() > 0 && b.len() > 0 && c.len() > 0 {
        if a[0] == b[0] && b[0] == c[0] {
            lemma_str_lt_transitive(a.drop_first(), b.drop_first(), c.drop_first());
        }
    }
}

/// Two different texts are ordered one way or the other.
pub proof fn lemma_str_lt_total(a: Seq<char>, b: Seq<char>)
    requires
        a != b,
    ensures
        str_lt(a, b) || str_lt(b, a),
    decreases a.len(),
{
    if a.len() > 0 && b.len() > 0 && a[0] == b[0] {
        if a.drop_first() == b.drop_first() {
            assert(a =~= seq![a[0]] + a.drop_first());
            assert(b =~= seq![b[0]] + b.drop_first());
        }
        lemma_str_lt_total(a.drop_first(), b.drop_first());
    } else if a.len() > 0 && b.len() > 0 {
        assert(a[0] != b[0]);
    } else if a.len() == 0 && b.len() == 0 {
        assert(a =~= b);
    }
}

/// Each text comes strictly before the next.
pub open spec fn strictly_sorted(s: Seq<Seq<char>>) -> bool {
    forall|i: int, j: int| 0 <= i < j < s.len() ==> str_lt(#[trigger] s[i], #[trigger] s[j])
}

/// Whether `a` comes strictly before `b`.
pub fn str_less(a: &str, b: &str) -> (r: bool)
    ensures
        r == str_lt(a@, b@),
{
    let ca = crate::text::chars_of(a);
    let cb = crate::text::chars_of(b);
    let mut i: usize = 0;
    assert(ca@.skip(0) == ca@);
    assert(cb@.skip(0) == cb@);
    while i < ca.len() && i < cb.len() && ca[i] == cb[i]
        invariant
            i <= ca@.len(),
            i <= cb@.len(),
            str_lt(a@, b@) == str_lt(ca@.skip(i as int), cb@.skip(i as int)),
            ca@ == a@,
            cb@ == b@,
        decreases ca@.len() - i,
    {
        assert(ca@.skip(i as int).drop_first() == ca@.skip(i + 1));
        assert(cb@.skip(i as int).drop_first() == cb@.skip(i + 1));
        i = i + 1;
    }
    if i == ca.len() {
        i < cb.len()
    } else if i == cb.len() {
        false
    } else {
        assert(ca@.skip(i as int)[0] == ca@[i as int]);
        assert(cb@.skip(i as int)[0] == cb@[i as int]);
        ca[i] < cb[i]
    }
}

/// How many leading texts come strictly before `x`.
pub open spec fn leading_lt(s: Seq<Seq<char>>, x: Seq<char>) -> int
    decreases s.len(),
{
    if s.len() == 0 {
        0
    } else if str_lt(s[0], x) {
        1 + leading_lt(s.drop_first(), x)
    } else {
        0
    }
}

/// A sorted list with `x` added in its place, unless it is already there.
pub open spec fn sorted_insert(s: Seq<Seq<char>>, x: Seq<char>) -> Seq<Seq<char>> {
    let p = leading_lt(s, x);
    if p < s.len() && s[p] == x {
        s
    } else {
        s.insert(p, x)
    }
}

/// The distinct texts of `xs` in ascending order, built by insertion.
pub open spec fn sorted_distinct(xs: Seq<Seq<char>>) -> Seq<Seq<char>>
    decreases xs.len(),
{
    if xs.len() == 0 {
        Seq::empty()
    } else {
        sorted_insert(sorted_distinct(xs.drop_last()), xs.last())
    }
}

proof fn lemma_leading_lt(s: Seq<Seq<char>>, x: Seq<char>)
    ensures
        0 <= leading_lt(s, x) <= s.len(),
        forall|j: int| 0 <= j < leading_lt(s, x) ==> str_lt(#[trigger] s[j], x),
        leading_lt(s, x) < s.len() ==> !str_lt(s[leading_lt(s, x)], x),
    decreases s.len(),
{
    if s.len() > 0 && str_lt(s[0], x) {
        lemma_leading_lt(s.drop_first(), x);
        assert forall|j: int| 0 <= j < leading_lt(s, x) implies str_lt(#[trigger] s[j], x) by {
            if j > 0 {
                assert(s[j] == s.drop_first()[j - 1]);
            }
        }
    }
}

/// The position where the scan for `x` stops is the count of texts before it.
proof fn lemma_leading_lt_at(s: Seq<Seq<char>>, x: Seq<char>, p: int)
    requires
        0 <= p <= s.len(),
        forall|j: int| 0 <= j < p ==> str_lt(#[trigger] s[j], x),
        p < s.len() ==> !str_lt(s[p], x),
    ensures
        leading_lt(s, x) == p,
    decreases p,
{
    if p > 0 {
        assert forall|j: int| 0 <= j < p - 1 implies str_lt(#[trigger] s.drop_first()[j], x) by {
            assert(s.drop_first()[j] == s[j + 1]);
        }
        if p < s.len() {
            assert(s.drop_first()[p - 1] == s[p]);
        }
        lemma_leading_lt_at(s.drop_first(), x, p - 1);
    }
}

/// Inserts `x` into a strictly sorted list, keeping it strictly sorted; a
/// text already present is not added again.
pub fn insert_sorted(v: &mut Vec<String>, x: String)
    requires
        strictly_sorted(crate::text::views(old(v)@)),
    ensures
        strictly_sorted(crate::text::views(final(v)@)),
        crate::text::views(final(v)@).to_set() == crate::text::views(old(v)@).to_set().insert(x@),
        crate::text::views(final(v)@) == sorted_insert(crate::text::views(old(v)@), x@),
{
    let ghost s0 = crate::text::views(v@);
    let mut p: usize = 0;
    while p < v.len() && str_less(v[p].as_str(), x.as_str())
        invariant
            p <= v@.len(),
            s0 == crate::text::views(v@),
            forall|k: int| 0 <= k < p ==> str_lt(#[trigger] s0[k], x@),
        decreases v@.len() - p,
    {
        p = p + 1;
    }
    proof {
        lemma_leading_lt_at(s0, x@, p as int);
    }
    if p < v.len() && crate::text::str_eq(v[p].as_str(), x.as_str()) {
        assert(s0[p as int] == x@);
        assert(s0.to_set().insert(x@) =~= s0.to_set());
        return;
    }
    proof {
        if p < s0.len() {
            lemma_str_lt_total(s0[p as int], x@);
        }
    }
    let ghost xv = x@;
    assert(!(p < s0.len() && s0[p as int] == xv));
    v.insert(p, x);
    let ghost s1 = crate::text::views(v@);
    assert(s1 =~= s0.insert(p as int, xv));
    assert forall|i: int, j: int| 0 <= i < j < s1.len() implies str_lt(#[trigger] s1[i], #[trigger] s1[j]) by {
        if j < p {
            assert(s1[i] == s0[i] && s1[j] == s0[j]);
        } else if j == p {
            assert(s1[i] == s0[i]);
        } else if i < p {
            assert(s1[i] == s0[i] && s1[j] == s0[j - 1]);
            if p < s0.len() {
                lemma_str_lt_transitive(s0[i], xv, s0[p as int]);
                if j - 1 > p {
                    lemma_str_lt_transitive(s0[i], s0[p as int], s0[j - 1]);
                }
            }
        } else if i == p {
            assert(s1[j] == s0[j - 1]);
            if j - 1 > p {
                lemma_str_lt_transitive(xv, s0[p as int], s0[j - 1]);
            }
        } else {
            assert(s1[i] == s0[i - 1] && s1[j] == s0[j - 1]);
        }
    }
    assert(s1.to_set() =~= s0.to_set().insert(xv)) by {
        assert forall|t: Seq<char>| s1.to_set().contains(t) <==> s0.to_set().insert(xv).contains(t) by {
            if s1.to_set().contains(t) {
                let k = choose|k: int| 0 <= k < s1.len() && s1[k] == t;
                if k < p {
                    assert(s0[k] == t);
                } else if k > p {
                    assert(s0[k - 1] == t);
                }
            }
            if s0.to_set().contains(t) {
                let k = choose|k: int| 0 <= k < s0.len() && s0[k] == t;
                if k < p {
                    assert(s1[k] == t);
                } else {
                    assert(s1[k + 1] == t);
                }
            }
            if t == xv {
                assert(s1[p as int] == t);
            }
        }
    }
}


/// The sorted distinct list is strictly sorted and holds exactly the texts
/// given.
pub proof fn lemma_sorted_distinct(xs: Seq<Seq<char>>)
    ensures
        strictly_sorted(sorted_distinct(xs)),
        sorted_distinct(xs).to_set() == xs.to_set(),
    decreases xs.len(),
{
    if xs.len() == 0 {
        assert(xs.to_set() =~= Set::empty());
        assert(sorted_distinct(xs).to_set() =~= Set::empty());
    } else {
        let prev = sorted_distinct(xs.drop_last());
        lemma_sorted_distinct(xs.drop_last());
        lemma_sorted_insert(prev, xs.last());
        crate::seqs::lemma_push_to_set(xs.drop_last(), xs.last());
        assert(xs.drop_last().push(xs.last()) == xs);
    }
}

/// Inserting in place keeps a list strictly sorted and adds the text.
pub proof fn lemma_sorted_insert(s: Seq<Seq<char>>, x: Seq<char>)
    requires
        strictly_sorted(s),
    ensures
        strictly_sorted(sorted_insert(s, x)),
        sorted_insert(s, x).to_set() == s.to_set().insert(x),
{
    let p = leading_lt(s, x);
    lemma_leading_lt(s, x);
    if p < s.len() && s[p] == x {
        assert(s.to_set().insert(x) =~= s.to_set());
    } else {
        if p < s.len() {
            lemma_str_lt_total(s[p], x);
        }
        let s1 = s.insert(p, x);
        assert forall|i: int, j: int| 0 <= i < j < s1.len() implies str_lt(#[trigger] s1[i], #[trigger] s1[j]) by {
            if j < p {
                assert(s1[i] == s[i] && s1[j] == s[j]);
            } else if j == p {
                assert(s1[i] == s[i]);
            } else if i < p {
                assert(s1[i] == s[i] && s1[j] == s[j - 1]);
                if p < s.len() {
                    lemma_str_lt_transitive(s[i], x, s[p]);
                    if j - 1 > p {
                        lemma_str_lt_transitive(s[i], s[p], s[j - 1]);
                    }
                }
            } else if i == p {
                assert(s1[j] == s[j - 1]);
                if j - 1 > p {
                    lemma_str_lt_transitive(x, s[p], s[j - 1]);
                }
            } else {
                assert(s1[i] == s[i - 1] && s1[j] == s[j - 1]);
            }
        }
        assert forall|t: Seq<char>| s1.to_set().contains(t) <==> s.to_set().insert(x).contains(t) by {
            if s1.contains(t) {
                let k = choose|k: int| 0 <= k < s1.len() && s1[k] == t;
                if k < p {
                    assert(s[k] == t);
                } else if k > p {
                    assert(s[k - 1] == t);
                }
            }
            if s.contains(t) {
                let k = choose|k: int| 0 <= k < s.len() && s[k] == t;
                if k < p {
                    assert(s1[k] == t);
                } else {
                    assert(s1[k + 1] == t);
                }
            }
            if t == x {
                assert(s1[p] == t);
            }
        }
        assert(s1.to_set() =~= s.to_set().insert(x));
    }
}

} // verus!
