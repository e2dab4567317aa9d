use vstd::prelude::*;

use crate::text::{copy_string, str_eq};

verus! {

/// A name with how often it occurred.
pub struct ToolCallStat {
    pub name: String,
    pub count: usize,
}

/// Views of name counts.
pub open spec fn stats_view(s: Seq<ToolCallStat>) -> Seq<(Seq<char>, usize)> {
    Seq::new(s.len(), |i: int| (s[i].name@, s[i].count))
}

/// A count one higher, stopping at the largest `usize`.
pub open spec fn inc(c: usize) -> usize {
    if c < usize::MAX {
        (c + 1) as usize
    } else {
        c
    }
}

/// Position of the entry for `name`.
pub open spec fn tally_index(t: Seq<(Seq<char>, usize)>, name: Seq<char>) -> Option<int>
    decreases t.len(),
{
    if t.len() == 0 {
        None
    } else if t.last().0 == name {
        Some(t.len() - 1)
    } else {
        tally_index(t.drop_last(), name)
    }
}

/// The counts after one more occurrence of `name`: its entry counts one
/// more, or a new entry with one is added at the end.
pub open spec fn tally_add(t: Seq<(Seq<char>, usize)>, name: Seq<char>) -> Seq<(Seq<char>, usize)> {
    match tally_index(t, name) {
        Some(i) => t.update(i, (name, inc(t[i].1))),
        None => t.push((name, 1usize)),
    }
}

proof fn lemma_tally_index(t: Seq<(Seq<char>, usize)>, name: Seq<char>)
    ensures
        match tally_index(t, name) {
            Some(i) => 0 <= i < t.len() && t[i].0 == name && forall|j: int| i < j < t.len() ==> t[j].0 != name,
            None => forall|j: int| 0 <= j < t.len() ==> t[j].0 != name,
        },
    decreases t.len(),
{
    if t.len() > 0 && t.last().0 != name {
        lemma_tally_index(t.drop_last(), name);
        match tally_index(t.drop_last(), name) {
            Some(i) => {
                assert forall|j: int| i < j < t.len() implies t[j].0 != name by {
                    if j < t.len() - 1 {
                        assert(t[j] == t.drop_last()[j]);
                    }
                }
            },
            None => {
                assert forall|j: int| 0 <= j < t.len() implies t[j].0 != name by {
                    if j < t.len() - 1 {
                        assert(t[j] == t.drop_last()[j]);
                    }
                }
            },
        }
    }
}

/// Counts one more occurrence of `name`.
pub fn tally(t: &mut Vec<ToolCallStat>, name: &str)
    ensures
        stats_view(final(t)@) == tally_add(stats_view(old(t)@), name@),
{
    let ghost tv = stats_view(t@);
    proof {
        lemma_tally_index(tv, name@);
    }
    let mut i = t.len();
    while i > 0
        invariant
            i <= t@.len(),
            tv == stats_view(t@),
            t@ == old(t)@,
            forall|j: int| i <= j < t@.len() ==> tv[j].0 != name@,
        decreases i,
    {
        if str_eq(t[i - 1].name.as_str(), name) {
            proof {
                lemma_tally_index(tv, name@);
                assert(tv[i - 1] == (t@[i - 1].name@, t@[i - 1].count));
                match tally_index(tv, name@) {
                    Some(k) => {
                        if k < i - 1 {
                            assert(tv[i - 1].0 == name@);
                        } else if k > i - 1 {
                            assert(tv[k].0 != name@);
                        }
                    },
                    None => {
                        assert(tv[i - 1].0 != name@);
                    },
                }
                assert(tally_index(tv, name@) == Some((i - 1) as int));
            }
            let old_entry = t.remove(i - 1);
            let c = if old_entry.count < usize::MAX {
                old_entry.count + 1
            } else {
                old_entry.count
            };
            t.insert(i - 1, ToolCallStat { name: old_entry.name, count: c });
            assert(stats_view(t@) =~= tv.update(i - 1, (name@, inc(tv[i - 1].1))));
            assert(tally_add(tv, name@) == tv.update(i - 1, (name@, inc(tv[i - 1].1))));
            assert(stats_view(t@) == tally_add(tv, name@));
            return;
        }
        i = i - 1;
    }
    proof {
        if let Some(k) = tally_index(tv, name@) {
            assert(tv[k].0 != name@);
        }
    }
    t.push(ToolCallStat { name: crate::text::owned(name), count: 1 });
    assert(stats_view(t@) =~= tv.push((name@, 1usize)));
}

/// `c + n`, stopping at the largest `usize`.
pub open spec fn add_sat(c: usize, n: usize) -> usize {
    if c + n <= usize::MAX {
        (c + n) as usize
    } else {
        usize::MAX
    }
}

/// The counts after `n` more occurrences of `name`: its entry counts `n`
/// more, or a new entry with `n` is added at the end.
pub open spec fn tally_add_n(t: Seq<(Seq<char>, usize)>, name: Seq<char>, n: usize) -> Seq<(Seq<char>, usize)> {
    match tally_index(t, name) {
        Some(i) => t.update(i, (name, add_sat(t[i].1, n))),
        None => t.push((name, n)),
    }
}

/// Counts `n` more occurrences of `name`.
pub fn tally_n(t: &mut Vec<ToolCallStat>, name: &str, n: usize)
    ensures
        stats_view(final(t)@) == tally_add_n(stats_view(old(t)@), name@, n),
{
    let ghost tv = stats_view(t@);
    let mut i = t.len();
    while i > 0
        invariant
            i <= t@.len(),
            tv == stats_view(t@),
            t@ == old(t)@,
            forall|j: int| i <= j < t@.len() ==> tv[j].0 != name@,
        decreases i,
    {
        if str_eq(t[i - 1].name.as_str(), name) {
            proof {
                lemma_tally_index(tv, name@);
                assert(tv[i - 1] == (t@[i - 1].name@, t@[i - 1].count));
                match tally_index(tv, name@) {
                    Some(k) => {
                        if k < i - 1 {
                            assert(tv[i - 1].0 == name@);
                        } else if k > i - 1 {
                            assert(tv[k].0 != name@);
                        }
                    },
                    None => {
                        assert(tv[i - 1].0 != name@);
                    },
                }
            }
            let old_entry = t.remove(i - 1);
            let c = if old_entry.count as u128 + n as u128 <= usize::MAX as u128 {
                old_entry.count + n
            } else {
                usize::MAX
            };
            t.insert(i - 1, ToolCallStat { name: old_entry.name, count: c });
            assert(stats_view(t@) =~= tv.update(i - 1, (name@, add_sat(tv[i - 1].1, n))));
            return;
        }
        i = i - 1;
    }
    proof {
        lemma_tally_index(tv, name@);
        if let Some(k) = tally_index(tv, name@) {
            assert(tv[k].0 != name@);
        }
    }
    t.push(ToolCallStat { name: crate::text::owned(name), count: n });
    assert(stats_view(t@) =~= tv.push((name@, n)));
}

/// How many leading entries have a count of at least `c`.
pub open spec fn leading_at_least(s: Seq<(Seq<char>, usize)>, c: usize) -> int
    decreases s.len(),
{
    if s.len() == 0 {
        0
    } else if s[0].1 >= c {
        1 + leading_at_least(s.drop_first(), c)
    } else {
        0
    }
}

/// Inserts `x` after every leading entry with a count at least its own.
pub open spec fn insert_desc(s: Seq<(Seq<char>, usize)>, x: (Seq<char>, usize)) -> Seq<(Seq<char>, usize)> {
    s.insert(leading_at_least(s, x.1), x)
}

/// The entries by count, highest first, keeping the order of equal counts:
/// the stable sort that `sort_by(|a, b| b.count.cmp(&a.count))` performs.
pub open spec fn sort_by_count_desc(s: Seq<(Seq<char>, usize)>) -> Seq<(Seq<char>, usize)>
    decreases s.len(),
{
    if s.len() == 0 {
        Seq::empty()
    } else {
        insert_desc(sort_by_count_desc(s.drop_last()), s.last())
    }
}

proof fn lemma_leading_bound(s: Seq<(Seq<char>, usize)>, c: usize)
    ensures
        0 <= leading_at_least(s, c) <= s.len(),
        forall|j: int| 0 <= j < leading_at_least(s, c) ==> s[j].1 >= c,
        leading_at_least(s, c) < s.len() ==> s[leading_at_least(s, c)].1 < c,
    decreases s.len(),
{
    if s.len() > 0 && s[0].1 >= c {
        lemma_leading_bound(s.drop_first(), c);
        assert forall|j: int| 0 <= j < leading_at_least(s, c) implies s[j].1 >= c by {
            if j > 0 {
                assert(s[j] == s.drop_first()[j - 1]);
            }
        }
    }
}

/// Counts are in descending order.
pub open spec fn count_desc(s: Seq<(Seq<char>, usize)>) -> bool {
    forall|i: int, j: int| 0 <= i < j < s.len() ==> #[trigger] s[i].1 >= #[trigger] s[j].1
}

/// The stable sort by count yields counts in descending order.
pub proof fn lemma_sort_by_count_desc_sorted(s: Seq<(Seq<char>, usize)>)
    ensures
        count_desc(sort_by_count_desc(s)),
        sort_by_count_desc(s).len() == s.len(),
    decreases s.len(),
{
    if s.len() > 0 {
        let p = sort_by_count_desc(s.drop_last());
        lemma_sort_by_count_desc_sorted(s.drop_last());
        let x = s.last();
        let k = leading_at_least(p, x.1);
        lemma_leading_bound(p, x.1);
        let r = p.insert(k, x);
        assert forall|i: int, j: int| 0 <= i < j < r.len() implies #[trigger] r[i].1 >= #[trigger] r[j].1 by {
            if j < k {
                assert(r[i] == p[i] && r[j] == p[j]);
            } else if j == k {
                assert(r[i] == p[i]);
            } else if i < k {
                assert(r[i] == p[i] && r[j] == p[j - 1]);
                assert(p[i].1 >= x.1);
            } else if i == k {
                assert(r[j] == p[j - 1]);
                assert(p[k].1 < x.1);
            } else {
                assert(r[i] == p[i - 1] && r[j] == p[j - 1]);
            }
        }
    }
}

/// Sorts name counts, highest first, keeping the order of equal counts.
pub fn sort_stats_desc(v: Vec<ToolCallStat>) -> (r: Vec<ToolCallStat>)
    ensures
        stats_view(r@) == sort_by_count_desc(stats_view(v@)),
{
    let ghost sv = stats_view(v@);
    let mut out: Vec<ToolCallStat> = Vec::new();
    assert(stats_view(out@) =~= Seq::empty());
    let mut v = v;
    let mut rest: Vec<ToolCallStat> = Vec::new();
    while v.len() > 0
        invariant
            stats_view(rest@) + stats_view(v@).reverse() =~= sv.reverse(),
        decreases v@.len(),
    {
        let x = v.pop().unwrap();
        rest.push(x);
        assert(stats_view(rest@) + stats_view(v@).reverse() =~= sv.reverse());
    }
    assert(stats_view(rest@) =~= sv.reverse());
    let mut i = rest.len();
    assert(sv.take(0) =~= Seq::<(Seq<char>, usize)>::empty());
    while i > 0
        invariant
            i <= rest@.len(),
            rest@.len() == sv.len(),
            stats_view(rest@) =~= sv.reverse(),
            stats_view(out@) == sort_by_count_desc(sv.take(rest@.len() - i)),
        decreases i,
    {
        let k = rest.len() - i;
        let x = &rest[i - 1];
        assert(stats_view(rest@)[i - 1] == sv[k as int]);
        let ghost o = stats_view(out@);
        proof {
            lemma_leading_bound(o, x.count);
        }
        let mut p: usize = 0;
        assert(o.skip(0) == o);
        while p < out.len() && out[p].count >= x.count
            invariant
                p <= out@.len(),
                o == stats_view(out@),
                leading_at_least(o, x.count) == p + leading_at_least(o.skip(p as int), x.count),
            decreases out@.len() - p,
        {
            assert(o.skip(p as int)[0] == o[p as int]);
            assert(o.skip(p as int).drop_first() == o.skip(p + 1));
            p = p + 1;
        }
        proof {
            if p < o.len() {
                assert(o.skip(p as int)[0] == o[p as int]);
            } else {
                assert(o.skip(p as int).len() == 0);
            }
        }
        out.insert(p, ToolCallStat { name: copy_string(&x.name), count: x.count });
        assert(sv.take(k + 1).drop_last() == sv.take(k as int));
        assert(sv.take(k + 1).last() == sv[k as int]);
        assert(stats_view(out@) =~= o.insert(p as int, (x.name@, x.count)));
        i = i - 1;
    }
    assert(sv.take(sv.len() as int) == sv);
    out
}

} // verus!
