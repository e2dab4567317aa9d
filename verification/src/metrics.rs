use vstd::prelude::*;

use crate::order::{lemma_str_lt_irreflexive, lemma_str_lt_transitive, str_less, str_lt};
use crate::seqs::{lemma_stable_sort_sorted, leading_not_after, sorted_by, stable_sort};
use crate::text::{concat3, copy_string, owned, str_eq, views};

verus! {

/// A character with ASCII upper-case letters made lower-case.
pub open spec fn ascii_lower(c: char) -> char {
    if 'A' <= c && c <= 'Z' {
        ((c as u32) + 32) as char
    } else {
        c
    }
}

/// Two texts are equal when ASCII letters are compared without case, as
/// `str::eq_ignore_ascii_case` compares them.
pub open spec fn eq_ignore_ascii_case(a: Seq<char>, b: Seq<char>) -> bool {
    a.len() == b.len() && forall|i: int| 0 <= i < a.len() ==> ascii_lower(#[trigger] a[i]) == ascii_lower(b[i])
}

/// A character with ASCII upper-case letters made lower-case.
fn ascii_lower_exec(c: char) -> (r: char)
    ensures
        r == ascii_lower(c),
{
    if 'A' <= c && c <= 'Z' {
        ((c as u8) + 32) as char
    } else {
        c
    }
}

/// Compares two texts without regard to ASCII case.
pub fn eq_ignore_case(a: &str, b: &str) -> (r: bool)
    ensures
        r == eq_ignore_ascii_case(a@, b@),
{
    let ca = crate::text::chars_of(a);
    let cb = crate::text::chars_of(b);
    if ca.len() != cb.len() {
        return false;
    }
    let mut i: usize = 0;
    while i < ca.len()
        invariant
            i <= ca@.len(),
            ca@ == a@,
            cb@ == b@,
            ca@.len() == cb@.len(),
            forall|k: int| 0 <= k < i ==> ascii_lower(#[trigger] a@[k]) == ascii_lower(b@[k]),
        decreases ca@.len() - i,
    {
        if ascii_lower_exec(ca[i]) != ascii_lower_exec(cb[i]) {
            return false;
        }
        i = i + 1;
    }
    true
}

/// Some column matches the candidate without regard to ASCII case.
pub open spec fn has_column(columns: Seq<Seq<char>>, c: Seq<char>) -> bool {
    exists|k: int| 0 <= k < columns.len() && eq_ignore_ascii_case(#[trigger] columns[k], c)
}

/// The first candidate that some column matches.
pub open spec fn found_column(columns: Seq<Seq<char>>, candidates: Seq<Seq<char>>) -> Option<Seq<char>>
    decreases candidates.len(),
{
    if candidates.len() == 0 {
        None
    } else if has_column(columns, candidates[0]) {
        Some(candidates[0])
    } else {
        found_column(columns, candidates.drop_first())
    }
}

/// Views of string slices.
pub open spec fn strs_view(s: Seq<&str>) -> Seq<Seq<char>> {
    Seq::new(s.len(), |i: int| s[i]@)
}

/// Finds the first of the candidate column names that the table has,
/// comparing without regard to ASCII case, and returns the candidate.
pub fn find_col(columns: &Vec<String>, candidates: &[&str]) -> (r: Option<String>)
    ensures
        match r {
            Some(c) => found_column(views(columns@), strs_view(candidates@)) == Some(c@),
            None => found_column(views(columns@), strs_view(candidates@)) is None,
        },
{
    let ghost cs = views(columns@);
    let ghost ds = strs_view(candidates@);
    let mut i: usize = 0;
    assert(ds.skip(0) == ds);
    while i < candidates.len()
        invariant
            i <= candidates@.len(),
            cs == views(columns@),
            ds == strs_view(candidates@),
            found_column(cs, ds) == found_column(cs, ds.skip(i as int)),
        decreases candidates@.len() - i,
    {
        let c = candidates[i];
        assert(ds.skip(i as int)[0] == c@);
        let mut k: usize = 0;
        let mut found = false;
        while k < columns.len() && !found
            invariant
                k <= columns@.len(),
                cs == views(columns@),
                found ==> has_column(cs, c@),
                !found ==> forall|q: int| 0 <= q < k ==> !eq_ignore_ascii_case(#[trigger] cs[q], c@),
            decreases columns@.len() - k + (if found { 0int } else { 1int }),
        {
            if eq_ignore_case(columns[k].as_str(), c) {
                assert(cs[k as int] == columns@[k as int]@);
                found = true;
            } else {
                k = k + 1;
            }
        }
        if found {
            return Some(owned(c));
        }
        assert(!has_column(cs, c@));
        assert(ds.skip(i as int).drop_first() == ds.skip(i + 1));
        i = i + 1;
    }
    None
}

/// Daily token sums of one model, as the detail statistics merge them.
pub struct DailyTokens {
    pub date: String,
    pub model: String,
    pub input_tokens: i64,
    pub output_tokens: i64,
    pub cache_read: i64,
    pub uncached_input: i64,
    pub request_count: i64,
}

/// Mathematical view of a [`DailyTokens`].
pub open spec fn daily_view(d: DailyTokens) -> (Seq<char>, Seq<char>, i64, i64, i64, i64, i64) {
    (d.date@, d.model@, d.input_tokens, d.output_tokens, d.cache_read, d.uncached_input, d.request_count)
}

/// Views of daily sums.
pub open spec fn dailies_view(s: Seq<DailyTokens>) -> Seq<(Seq<char>, Seq<char>, i64, i64, i64, i64, i64)> {
    Seq::new(s.len(), |i: int| daily_view(s[i]))
}

/// `a - b`, but never below zero and stopping at the largest `i64`.
pub open spec fn uncached(a: i64, b: i64) -> i64 {
    if a - b <= 0 {
        0
    } else if a - b > i64::MAX {
        i64::MAX
    } else {
        (a - b) as i64
    }
}

/// Computes the input tokens that were not read from the cache.
pub fn uncached_exec(a: i64, b: i64) -> (r: i64)
    ensures
        r == uncached(a, b),
{
    let d: i128 = a as i128 - b as i128;
    if d <= 0 {
        0
    } else if d > i64::MAX as i128 {
        i64::MAX
    } else {
        d as i64
    }
}

/// A row of request-log sums: date, model, input, output, cached tokens and
/// request count.
pub type LogRow = (String, String, i64, i64, i64, i64);

/// A row of call-record token sums: date, model, prompt, completion, cached
/// tokens and record count.
pub type CallRow = (String, String, i64, i64, i64, i64);

/// Position of the daily entry for a date and model.
pub open spec fn daily_key_index(t: Seq<(Seq<char>, Seq<char>, i64, i64, i64, i64, i64)>, date: Seq<char>, model: Seq<char>) -> Option<int>
    decreases t.len(),
{
    if t.len() == 0 {
        None
    } else if t.last().0 == date && t.last().1 == model {
        Some(t.len() - 1)
    } else {
        daily_key_index(t.drop_last(), date, model)
    }
}

proof fn lemma_daily_key_index(t: Seq<(Seq<char>, Seq<char>, i64, i64, i64, i64, i64)>, date: Seq<char>, model: Seq<char>)
    ensures
        match daily_key_index(t, date, model) {
            Some(k) => 0 <= k < t.len() && t[k].0 == date && t[k].1 == model && forall|j: int|
                k < j < t.len() ==> !(t[j].0 == date && t[j].1 == model),
            None => forall|j: int| 0 <= j < t.len() ==> !(t[j].0 == date && t[j].1 == model),
        },
    decreases t.len(),
{
    if t.len() > 0 && !(t.last().0 == date && t.last().1 == model) {
        lemma_daily_key_index(t.drop_last(), date, model);
        match daily_key_index(t.drop_last(), date, model) {
            Some(k) => {
                assert forall|j: int| k < j < t.len() implies !(t[j].0 == date && t[j].1 == model) by {
                    if j < t.len() - 1 {
                        assert(t[j] == t.drop_last()[j]);
                    }
                }
            },
            None => {
                assert forall|j: int| 0 <= j < t.len() implies !(t[j].0 == date && t[j].1 == model) by {
                    if j < t.len() - 1 {
                        assert(t[j] == t.drop_last()[j]);
                    }
                }
            },
        }
    }
}

/// The daily entries after a request-log row: its entry (found or added)
/// takes the row's tokens and count.
pub open spec fn apply_log_row(
    t: Seq<(Seq<char>, Seq<char>, i64, i64, i64, i64, i64)>,
    r: (Seq<char>, Seq<char>, i64, i64, i64, i64),
) -> Seq<(Seq<char>, Seq<char>, i64, i64, i64, i64, i64)> {
    let e = (r.0, r.1, r.2, r.3, r.4, uncached(r.2, r.4), r.5);
    match daily_key_index(t, r.0, r.1) {
        Some(k) => t.update(k, e),
        None => t.push(e),
    }
}

/// The daily entries after a call-record row: tokens only where the
/// request logs gave none, the count only where they gave none.
pub open spec fn apply_call_row(
    t: Seq<(Seq<char>, Seq<char>, i64, i64, i64, i64, i64)>,
    r: (Seq<char>, Seq<char>, i64, i64, i64, i64),
) -> Seq<(Seq<char>, Seq<char>, i64, i64, i64, i64, i64)> {
    let (base, k) = match daily_key_index(t, r.0, r.1) {
        Some(k) => (t, k),
        None => (t.push((r.0, r.1, 0i64, 0i64, 0i64, 0i64, 0i64)), t.len() as int),
    };
    let e = base[k];
    let e1 = if e.2 == 0 && e.3 == 0 {
        (e.0, e.1, r.2, r.3, r.4, uncached(r.2, r.4), e.6)
    } else {
        e
    };
    let e2 = if e1.6 == 0 {
        (e1.0, e1.1, e1.2, e1.3, e1.4, e1.5, r.5)
    } else {
        e1
    };
    base.update(k, e2)
}

/// Views of rows.
pub open spec fn rows_view(s: Seq<LogRow>) -> Seq<(Seq<char>, Seq<char>, i64, i64, i64, i64)> {
    Seq::new(s.len(), |i: int| (s[i].0@, s[i].1@, s[i].2, s[i].3, s[i].4, s[i].5))
}

/// The daily entries from the request-log rows, then the call-record rows.
pub open spec fn merged_daily(
    logs: Seq<(Seq<char>, Seq<char>, i64, i64, i64, i64)>,
    calls: Seq<(Seq<char>, Seq<char>, i64, i64, i64, i64)>,
) -> Seq<(Seq<char>, Seq<char>, i64, i64, i64, i64, i64)>
    decreases calls.len(),
{
    if calls.len() == 0 {
        log_daily(logs)
    } else {
        apply_call_row(merged_daily(logs, calls.drop_last()), calls.last())
    }
}

/// The daily entries from the request-log rows.
pub open spec fn log_daily(logs: Seq<(Seq<char>, Seq<char>, i64, i64, i64, i64)>) -> Seq<(Seq<char>, Seq<char>, i64, i64, i64, i64, i64)>
    decreases logs.len(),
{
    if logs.len() == 0 {
        Seq::empty()
    } else {
        apply_log_row(log_daily(logs.drop_last()), logs.last())
    }
}

/// Finds the entry for a date and model.
fn find_daily(t: &Vec<DailyTokens>, date: &String, model: &String) -> (r: Option<usize>)
    ensures
        match r {
            Some(k) => k < t@.len() && daily_key_index(dailies_view(t@), date@, model@) == Some(k as int),
            None => daily_key_index(dailies_view(t@), date@, model@) is None,
        },
{
    let ghost tv = dailies_view(t@);
    let mut k = t.len();
    while k > 0
        invariant
            k <= t@.len(),
            tv == dailies_view(t@),
            forall|j: int| k <= j < t@.len() ==> !(tv[j].0 == date@ && tv[j].1 == model@),
        decreases k,
    {
        if str_eq(t[k - 1].date.as_str(), date.as_str()) && str_eq(t[k - 1].model.as_str(), model.as_str()) {
            proof {
                lemma_daily_key_index(tv, date@, model@);
                assert(tv[k - 1] == daily_view(t@[k - 1]));
                match daily_key_index(tv, date@, model@) {
                    Some(q) => {
                        if q < k - 1 {
                            assert(tv[k - 1].0 == date@ && tv[k - 1].1 == model@);
                        } else if q > k - 1 {
                            assert(!(tv[q].0 == date@ && tv[q].1 == model@));
                        }
                    },
                    None => {
                        assert(!(tv[k - 1].0 == date@ && tv[k - 1].1 == model@));
                    },
                }
            }
            return Some(k - 1);
        }
        k = k - 1;
    }
    proof {
        lemma_daily_key_index(tv, date@, model@);
        if let Some(q) = daily_key_index(tv, date@, model@) {
            assert(!(tv[q].0 == date@ && tv[q].1 == model@));
        }
    }
    None
}

/// Merges the daily token sums of the request logs and the call records:
/// the request logs' sums first; the call records fill in tokens for days
/// the logs gave none, and counts where the logs counted none.
pub fn merge_daily_tokens(logs: &Vec<LogRow>, calls: &Vec<CallRow>) -> (r: Vec<DailyTokens>)
    ensures
        dailies_view(r@) == merged_daily(rows_view(logs@), rows_view(calls@)),
{
    let ghost lv = rows_view(logs@);
    let ghost cv = rows_view(calls@);
    let mut t: Vec<DailyTokens> = Vec::new();
    assert(dailies_view(t@) =~= Seq::empty());
    let mut i: usize = 0;
    while i < logs.len()
        invariant
            i <= logs@.len(),
            lv == rows_view(logs@),
            dailies_view(t@) == log_daily(lv.take(i as int)),
        decreases logs@.len() - i,
    {
        assert(lv.take(i + 1).drop_last() == lv.take(i as int));
        assert(lv.take(i + 1).last() == lv[i as int]);
        let r = &logs[i];
        let e = DailyTokens {
            date: copy_string(&r.0),
            model: copy_string(&r.1),
            input_tokens: r.2,
            output_tokens: r.3,
            cache_read: r.4,
            uncached_input: uncached_exec(r.2, r.4),
            request_count: r.5,
        };
        let ghost tv = dailies_view(t@);
        match find_daily(&t, &r.0, &r.1) {
            Some(k) => {
                let _ = t.remove(k);
                t.insert(k, e);
                assert(dailies_view(t@) =~= tv.update(k as int, daily_view(e)));
            },
            None => {
                t.push(e);
                assert(dailies_view(t@) =~= tv.push(daily_view(e)));
            },
        }
        i = i + 1;
    }
    assert(lv.take(lv.len() as int) == lv);
    let mut j: usize = 0;
    assert(cv.take(0) =~= Seq::<(Seq<char>, Seq<char>, i64, i64, i64, i64)>::empty());
    while j < calls.len()
        invariant
            j <= calls@.len(),
            cv == rows_view(calls@),
            dailies_view(t@) == merged_daily(lv, cv.take(j as int)),
        decreases calls@.len() - j,
    {
        assert(cv.take(j + 1).drop_last() == cv.take(j as int));
        assert(cv.take(j + 1).last() == cv[j as int]);
        let r = &calls[j];
        let ghost tv = dailies_view(t@);
        let k = match find_daily(&t, &r.0, &r.1) {
            Some(k) => k,
            None => {
                t.push(DailyTokens {
                    date: copy_string(&r.0),
                    model: copy_string(&r.1),
                    input_tokens: 0,
                    output_tokens: 0,
                    cache_read: 0,
                    uncached_input: 0,
                    request_count: 0,
                });
                assert(dailies_view(t@) =~= tv.push((r.0@, r.1@, 0i64, 0i64, 0i64, 0i64, 0i64)));
                t.len() - 1
            },
        };
        let ghost bv = dailies_view(t@);
        let e = t.remove(k);
        let mut e = e;
        if e.input_tokens == 0 && e.output_tokens == 0 {
            e.input_tokens = r.2;
            e.output_tokens = r.3;
            e.cache_read = r.4;
            e.uncached_input = uncached_exec(r.2, r.4);
        }
        if e.request_count == 0 {
            e.request_count = r.5;
        }
        t.insert(k, e);
        assert(dailies_view(t@) =~= apply_call_row(tv, cv[j as int]));
        j = j + 1;
    }
    assert(cv.take(cv.len() as int) == cv);
    t
}

/// The totals of one model over its days.
pub struct ModelTotals {
    pub model: String,
    pub total_requests: i64,
    pub total_input: i64,
    pub total_output: i64,
    pub total_cache: i64,
}

/// Mathematical view of a [`ModelTotals`]: model, requests, input, output
/// and cached tokens.
pub open spec fn totals_view(t: ModelTotals) -> (Seq<char>, i64, i64, i64, i64) {
    (t.model@, t.total_requests, t.total_input, t.total_output, t.total_cache)
}

/// Views of model totals.
pub open spec fn totals_views(s: Seq<ModelTotals>) -> Seq<(Seq<char>, i64, i64, i64, i64)> {
    Seq::new(s.len(), |i: int| totals_view(s[i]))
}

/// `a + b`, held within the range of `i64`.
pub open spec fn sat_add_i64(a: i64, b: i64) -> i64 {
    if a + b > i64::MAX {
        i64::MAX
    } else if a + b < i64::MIN {
        i64::MIN
    } else {
        (a + b) as i64
    }
}

fn sat_add_i64_exec(a: i64, b: i64) -> (r: i64)
    ensures
        r == sat_add_i64(a, b),
{
    let s: i128 = a as i128 + b as i128;
    if s > i64::MAX as i128 {
        i64::MAX
    } else if s < i64::MIN as i128 {
        i64::MIN
    } else {
        s as i64
    }
}

/// Position of the totals of `model`.
pub open spec fn model_index(t: Seq<(Seq<char>, i64, i64, i64, i64)>, model: Seq<char>) -> Option<int>
    decreases t.len(),
{
    if t.len() == 0 {
        None
    } else if t.last().0 == model {
        Some(t.len() - 1)
    } else {
        model_index(t.drop_last(), model)
    }
}

proof fn lemma_model_index(t: Seq<(Seq<char>, i64, i64, i64, i64)>, model: Seq<char>)
    ensures
        match model_index(t, model) {
            Some(k) => 0 <= k < t.len() && t[k].0 == model && forall|j: int| k < j < t.len() ==> t[j].0 != model,
            None => forall|j: int| 0 <= j < t.len() ==> t[j].0 != model,
        },
    decreases t.len(),
{
    if t.len() > 0 && t.last().0 != model {
        lemma_model_index(t.drop_last(), model);
        assert forall|j: int| 0 <= j < t.len() - 1 implies t[j] == t.drop_last()[j] by {}
    }
}

/// The totals after one more day: the model's entry (found, or added with
/// zeros) adds the day's requests and tokens.
pub open spec fn totals_add(
    t: Seq<(Seq<char>, i64, i64, i64, i64)>,
    d: (Seq<char>, Seq<char>, i64, i64, i64, i64, i64),
) -> Seq<(Seq<char>, i64, i64, i64, i64)> {
    let (base, k) = match model_index(t, d.1) {
        Some(k) => (t, k),
        None => (t.push((d.1, 0i64, 0i64, 0i64, 0i64)), t.len() as int),
    };
    let e = base[k];
    base.update(
        k,
        (e.0, sat_add_i64(e.1, d.6), sat_add_i64(e.2, d.2), sat_add_i64(e.3, d.3), sat_add_i64(e.4, d.4)),
    )
}

/// The totals of each model over the days, in the order models first
/// appear.
pub open spec fn model_totals(days: Seq<(Seq<char>, Seq<char>, i64, i64, i64, i64, i64)>) -> Seq<(Seq<char>, i64, i64, i64, i64)>
    decreases days.len(),
{
    if days.len() == 0 {
        Seq::empty()
    } else {
        totals_add(model_totals(days.drop_last()), days.last())
    }
}

/// Sums the requests and tokens of each model over its days.
pub fn sum_model_totals(daily: &Vec<DailyTokens>) -> (r: Vec<ModelTotals>)
    ensures
        totals_views(r@) == model_totals(dailies_view(daily@)),
{
    let ghost dv = dailies_view(daily@);
    let mut t: Vec<ModelTotals> = Vec::new();
    assert(totals_views(t@) =~= Seq::empty());
    let mut i: usize = 0;
    while i < daily.len()
        invariant
            i <= daily@.len(),
            dv == dailies_view(daily@),
            totals_views(t@) == model_totals(dv.take(i as int)),
        decreases daily@.len() - i,
    {
        assert(dv.take(i + 1).drop_last() == dv.take(i as int));
        assert(dv.take(i + 1).last() == dv[i as int]);
        let d = &daily[i];
        assert(dv[i as int] == daily_view(*d));
        let ghost tv = totals_views(t@);
        proof {
            lemma_model_index(tv, d.model@);
        }
        let mut k = t.len();
        let mut found = false;
        while k > 0 && !found
            invariant
                k <= t@.len(),
                tv == totals_views(t@),
                found ==> k < t@.len() && model_index(tv, d.model@) == Some(k as int),
                !found ==> forall|j: int| k <= j < t@.len() ==> tv[j].0 != d.model@,
            decreases k + (if found { 0int } else { 1int }),
        {
            if str_eq(t[k - 1].model.as_str(), d.model.as_str()) {
                proof {
                    lemma_model_index(tv, d.model@);
                    assert(tv[k - 1] == totals_view(t@[k - 1]));
                    match model_index(tv, d.model@) {
                        Some(q) => {
                            if q < k - 1 {
                                assert(tv[k - 1].0 == d.model@);
                            } else if q > k - 1 {
                                assert(tv[q].0 != d.model@);
                            }
                        },
                        None => {
                            assert(tv[k - 1].0 != d.model@);
                        },
                    }
                }
                k = k - 1;
                found = true;
            } else {
                k = k - 1;
            }
        }
        if !found {
            proof {
                if let Some(q) = model_index(tv, d.model@) {
                    assert(tv[q].0 != d.model@);
                }
            }
            t.push(ModelTotals {
                model: copy_string(&d.model),
                total_requests: 0,
                total_input: 0,
                total_output: 0,
                total_cache: 0,
            });
            k = t.len() - 1;
            assert(totals_views(t@) =~= tv.push((d.model@, 0i64, 0i64, 0i64, 0i64)));
        }
        let ghost bv = totals_views(t@);
        let e = t.remove(k);
        let n = ModelTotals {
            model: e.model,
            total_requests: sat_add_i64_exec(e.total_requests, d.request_count),
            total_input: sat_add_i64_exec(e.total_input, d.input_tokens),
            total_output: sat_add_i64_exec(e.total_output, d.output_tokens),
            total_cache: sat_add_i64_exec(e.total_cache, d.cache_read),
        };
        t.insert(k, n);
        assert(totals_views(t@) =~= bv.update(k as int, totals_view(n)));
        i = i + 1;
    }
    assert(dv.take(dv.len() as int) == dv);
    t
}

/// A model goes first when its input and output tokens together are more.
pub open spec fn volume_before() -> spec_fn((Seq<char>, i64, i64, i64, i64), (Seq<char>, i64, i64, i64, i64)) -> bool {
    |a: (Seq<char>, i64, i64, i64, i64), b: (Seq<char>, i64, i64, i64, i64)| a.2 + a.3 > b.2 + b.3
}

/// A day goes first when its date is later, or, on the same date, when its
/// model name comes first.
pub open spec fn day_before() -> spec_fn(
    (Seq<char>, Seq<char>, i64, i64, i64, i64, i64),
    (Seq<char>, Seq<char>, i64, i64, i64, i64, i64),
) -> bool {
    |a: (Seq<char>, Seq<char>, i64, i64, i64, i64, i64), b: (Seq<char>, Seq<char>, i64, i64, i64, i64, i64)|
        str_lt(b.0, a.0) || (a.0 == b.0 && str_lt(a.1, b.1))
}

fn volume_before_exec(a: &ModelTotals, b: &ModelTotals) -> (r: bool)
    ensures
        r == volume_before()(totals_view(*a), totals_view(*b)),
{
    a.total_input as i128 + a.total_output as i128 > b.total_input as i128 + b.total_output as i128
}

fn day_before_exec(a: &DailyTokens, b: &DailyTokens) -> (r: bool)
    ensures
        r == day_before()(daily_view(*a), daily_view(*b)),
{
    str_less(b.date.as_str(), a.date.as_str()) || (str_eq(a.date.as_str(), b.date.as_str()) && str_less(
        a.model.as_str(),
        b.model.as_str(),
    ))
}

fn copy_totals(t: &ModelTotals) -> (r: ModelTotals)
    ensures
        totals_view(r) == totals_view(*t),
{
    ModelTotals {
        model: copy_string(&t.model),
        total_requests: t.total_requests,
        total_input: t.total_input,
        total_output: t.total_output,
        total_cache: t.total_cache,
    }
}

fn copy_daily(d: &DailyTokens) -> (r: DailyTokens)
    ensures
        daily_view(r) == daily_view(*d),
{
    DailyTokens {
        date: copy_string(&d.date),
        model: copy_string(&d.model),
        input_tokens: d.input_tokens,
        output_tokens: d.output_tokens,
        cache_read: d.cache_read,
        uncached_input: d.uncached_input,
        request_count: d.request_count,
    }
}

/// Orders model totals by input plus output tokens, most first, keeping
/// the order of models with equal sums.
pub fn sort_models_by_volume(v: &Vec<ModelTotals>) -> (r: Vec<ModelTotals>)
    ensures
        totals_views(r@) == stable_sort(totals_views(v@), volume_before()),
{
    let ghost sv = totals_views(v@);
    let mut out: Vec<ModelTotals> = Vec::new();
    assert(sv.take(0) =~= Seq::<(Seq<char>, i64, i64, i64, i64)>::empty());
    assert(totals_views(out@) =~= Seq::empty());
    let mut i: usize = 0;
    while i < v.len()
        invariant
            i <= v@.len(),
            sv == totals_views(v@),
            totals_views(out@) == stable_sort(sv.take(i as int), volume_before()),
        decreases v@.len() - i,
    {
        let x = &v[i];
        let ghost o = totals_views(out@);
        let ghost xv = totals_view(*x);
        let mut p: usize = 0;
        assert(o.skip(0) == o);
        while p < out.len() && !volume_before_exec(x, &out[p])
            invariant
                p <= out@.len(),
                o == totals_views(out@),
                xv == totals_view(*x),
                leading_not_after(o, xv, volume_before()) == p + leading_not_after(o.skip(p as int), xv, volume_before()),
            decreases out@.len() - p,
        {
            assert(o.skip(p as int)[0] == o[p as int]);
            assert(o.skip(p as int).drop_first() == o.skip(p + 1));
            p = p + 1;
        }
        proof {
            if p < o.len() {
                assert(o.skip(p as int)[0] == o[p as int]);
            } else {
                assert(o.skip(p as int).len() == 0);
            }
        }
        out.insert(p, copy_totals(x));
        assert(sv.take(i + 1).drop_last() == sv.take(i as int));
        assert(sv.take(i + 1).last() == sv[i as int]);
        assert(totals_views(out@) =~= o.insert(p as int, xv));
        i = i + 1;
    }
    assert(sv.take(sv.len() as int) == sv);
    out
}

/// Orders daily sums by date, latest first, and by model name within a
/// date.
pub fn sort_daily(v: &Vec<DailyTokens>) -> (r: Vec<DailyTokens>)
    ensures
        dailies_view(r@) == stable_sort(dailies_view(v@), day_before()),
{
    let ghost sv = dailies_view(v@);
    let mut out: Vec<DailyTokens> = Vec::new();
    assert(sv.take(0) =~= Seq::<(Seq<char>, Seq<char>, i64, i64, i64, i64, i64)>::empty());
    assert(dailies_view(out@) =~= Seq::empty());
    let mut i: usize = 0;
    while i < v.len()
        invariant
            i <= v@.len(),
            sv == dailies_view(v@),
            dailies_view(out@) == stable_sort(sv.take(i as int), day_before()),
        decreases v@.len() - i,
    {
        let x = &v[i];
        let ghost o = dailies_view(out@);
        let ghost xv = daily_view(*x);
        let mut p: usize = 0;
        assert(o.skip(0) == o);
        while p < out.len() && !day_before_exec(x, &out[p])
            invariant
                p <= out@.len(),
                o == dailies_view(out@),
                xv == daily_view(*x),
                leading_not_after(o, xv, day_before()) == p + leading_not_after(o.skip(p as int), xv, day_before()),
            decreases out@.len() - p,
        {
            assert(o.skip(p as int)[0] == o[p as int]);
            assert(o.skip(p as int).drop_first() == o.skip(p + 1));
            p = p + 1;
        }
        proof {
            if p < o.len() {
                assert(o.skip(p as int)[0] == o[p as int]);
            } else {
                assert(o.skip(p as int).len() == 0);
            }
        }
        out.insert(p, copy_daily(x));
        assert(sv.take(i + 1).drop_last() == sv.take(i as int));
        assert(sv.take(i + 1).last() == sv[i as int]);
        assert(dailies_view(out@) =~= o.insert(p as int, xv));
        i = i + 1;
    }
    assert(sv.take(sv.len() as int) == sv);
    out
}

/// Model totals come out with the most input and output tokens first.
pub proof fn lemma_models_by_volume_sorted(s: Seq<(Seq<char>, i64, i64, i64, i64)>)
    ensures
        sorted_by(stable_sort(s, volume_before()), volume_before()),
        stable_sort(s, volume_before()).len() == s.len(),
{
    lemma_stable_sort_sorted(s, volume_before());
}

/// Daily sums come out latest date first, and by model name within a date.
pub proof fn lemma_daily_sorted(s: Seq<(Seq<char>, Seq<char>, i64, i64, i64, i64, i64)>)
    ensures
        sorted_by(stable_sort(s, day_before()), day_before()),
        stable_sort(s, day_before()).len() == s.len(),
{
    let f = day_before();
    assert forall|a: (Seq<char>, Seq<char>, i64, i64, i64, i64, i64)| !#[trigger] f(a, a) by {
        lemma_str_lt_irreflexive(a.0);
        lemma_str_lt_irreflexive(a.1);
    }
    assert forall|
        a: (Seq<char>, Seq<char>, i64, i64, i64, i64, i64),
        b: (Seq<char>, Seq<char>, i64, i64, i64, i64, i64),
        c: (Seq<char>, Seq<char>, i64, i64, i64, i64, i64),
    | #[trigger] f(a, b) && #[trigger] f(b, c) implies f(a, c) by {
        if str_lt(b.0, a.0) && str_lt(c.0, b.0) {
            lemma_str_lt_transitive(c.0, b.0, a.0);
        } else if a.0 == b.0 && b.0 == c.0 {
            lemma_str_lt_transitive(a.1, b.1, c.1);
        }
    }
    lemma_stable_sort_sorted(s, f);
}

/// Column names that may hold a call record's date, in order of preference.
pub open spec fn date_candidates() -> Seq<Seq<char>> {
    seq!["recorded_at"@, "created_at"@, "timestamp"@, "date"@]
}

/// Column names that may hold a call record's model.
pub open spec fn model_candidates() -> Seq<Seq<char>> {
    seq!["model_name"@, "model"@, "model_id"@]
}

/// Column names that may hold a call record's latency.
pub open spec fn latency_candidates() -> Seq<Seq<char>> {
    seq!["latency_ms"@, "latency"@, "duration_ms"@, "duration"@]
}

/// Column names that may hold a call record's total tokens.
pub open spec fn total_candidates() -> Seq<Seq<char>> {
    seq!["total_tokens"@, "tokens"@]
}

/// Column names that may hold a call record's prompt tokens.
pub open spec fn prompt_candidates() -> Seq<Seq<char>> {
    seq!["prompt_tokens"@, "input_tokens"@]
}

/// Column names that may hold a call record's completion tokens.
pub open spec fn completion_candidates() -> Seq<Seq<char>> {
    seq!["completion_tokens"@, "output_tokens"@]
}

/// Column names that may hold a call record's cached tokens.
pub open spec fn cached_candidates() -> Seq<Seq<char>> {
    seq!["cached_tokens"@, "cache_read_tokens"@]
}

/// The column found, or a fallback expression.
pub open spec fn col_or(c: Option<Seq<char>>, fallback: Seq<char>) -> Seq<char> {
    match c {
        Some(x) => x,
        None => fallback,
    }
}

/// The expression for a call record's day.
pub open spec fn date_expr(c: Option<Seq<char>>) -> Seq<char> {
    match c {
        Some(x) => if x == "recorded_at"@ {
            "SUBSTR(recorded_at, 1, 10)"@
        } else {
            "DATE("@ + x + ")"@
        },
        None => "NULL"@,
    }
}

/// The expression for a call record's tokens per second.
pub open spec fn tps_expr(tok: Option<Seq<char>>, lat: Option<Seq<char>>) -> Seq<char> {
    match (tok, lat) {
        (Some(t), Some(l)) => t + " * 1000.0 / MAX("@ + l + ", 1)"@,
        _ => "0"@,
    }
}

/// The query over the call records of the last `?1` days, written for the
/// columns the table has.
pub open spec fn call_records_sql(columns: Seq<Seq<char>>) -> Seq<char> {
    let d = found_column(columns, date_candidates());
    let m = found_column(columns, model_candidates());
    let l = found_column(columns, latency_candidates());
    let t = found_column(columns, total_candidates());
    let p = found_column(columns, prompt_candidates());
    let c = found_column(columns, completion_candidates());
    let k = found_column(columns, cached_candidates());
    "SELECT "@ + date_expr(d) + ", "@ + col_or(m, "NULL"@) + ", "@ + col_or(l, "NULL"@) + ", "@ + tps_expr(t, l)
        + ", "@ + col_or(p, "0"@) + ", "@ + col_or(c, "0"@) + ", "@ + col_or(k, "0"@)
        + " FROM call_records WHERE SUBSTR("@ + col_or(d, "recorded_at"@)
        + ", 1, 10) >= SUBSTR(datetime('now', '-' || ?1 || ' days'), 1, 10)"@
}

fn col_or_exec(c: &Option<String>, fallback: &str) -> (r: String)
    ensures
        r@ == col_or(opt_str_view(*c), fallback@),
{
    match c {
        Some(x) => copy_string(x),
        None => owned(fallback),
    }
}

/// View of an optional text.
pub open spec fn opt_str_view(c: Option<String>) -> Option<Seq<char>> {
    match c {
        Some(x) => Some(x@),
        None => None,
    }
}

fn find_col_of(columns: &Vec<String>, candidates: Vec<&str>, ghost_c: Ghost<Seq<Seq<char>>>) -> (r: Option<String>)
    requires
        strs_view(candidates@) == ghost_c@,
    ensures
        opt_str_view(r) == found_column(views(columns@), ghost_c@),
{
    let r = find_col(columns, candidates.as_slice());
    r
}

/// Builds the query over the call records for the columns the table has:
/// each quantity is read from the first candidate column present (compared
/// without ASCII case), or from a constant where none is.
pub fn build_call_records_sql(columns: &Vec<String>) -> (r: String)
    ensures
        r@ == call_records_sql(views(columns@)),
{
    proof {
        reveal_strlit("recorded_at");
        reveal_strlit("created_at");
        reveal_strlit("timestamp");
        reveal_strlit("date");
        reveal_strlit("model_name");
        reveal_strlit("model");
        reveal_strlit("model_id");
        reveal_strlit("latency_ms");
        reveal_strlit("latency");
        reveal_strlit("duration_ms");
        reveal_strlit("duration");
        reveal_strlit("total_tokens");
        reveal_strlit("tokens");
        reveal_strlit("prompt_tokens");
        reveal_strlit("input_tokens");
        reveal_strlit("completion_tokens");
        reveal_strlit("output_tokens");
        reveal_strlit("cached_tokens");
        reveal_strlit("cache_read_tokens");
    }
    let dv = vec!["recorded_at", "created_at", "timestamp", "date"];
    assert(strs_view(dv@) =~= date_candidates());
    let d = find_col_of(columns, dv, Ghost(date_candidates()));
    let mv = vec!["model_name", "model", "model_id"];
    assert(strs_view(mv@) =~= model_candidates());
    let m = find_col_of(columns, mv, Ghost(model_candidates()));
    let lv = vec!["latency_ms", "latency", "duration_ms", "duration"];
    assert(strs_view(lv@) =~= latency_candidates());
    let l = find_col_of(columns, lv, Ghost(latency_candidates()));
    let tv = vec!["total_tokens", "tokens"];
    assert(strs_view(tv@) =~= total_candidates());
    let t = find_col_of(columns, tv, Ghost(total_candidates()));
    let pv = vec!["prompt_tokens", "input_tokens"];
    assert(strs_view(pv@) =~= prompt_candidates());
    let p = find_col_of(columns, pv, Ghost(prompt_candidates()));
    let cv = vec!["completion_tokens", "output_tokens"];
    assert(strs_view(cv@) =~= completion_candidates());
    let c = find_col_of(columns, cv, Ghost(completion_candidates()));
    let kv = vec!["cached_tokens", "cache_read_tokens"];
    assert(strs_view(kv@) =~= cached_candidates());
    let k = find_col_of(columns, kv, Ghost(cached_candidates()));

    let date_e = match &d {
        Some(x) => if str_eq(x.as_str(), "recorded_at") {
            owned("SUBSTR(recorded_at, 1, 10)")
        } else {
            concat3("DATE(", x.as_str(), ")")
        },
        None => owned("NULL"),
    };
    let tps_e = match (&t, &l) {
        (Some(tok), Some(lat)) => {
            let mut e = copy_string(tok);
            e.push_str(" * 1000.0 / MAX(");
            e.push_str(lat.as_str());
            e.push_str(", 1)");
            e
        },
        _ => owned("0"),
    };
    let mut sql = owned("SELECT ");
    sql.push_str(date_e.as_str());
    sql.push_str(", ");
    sql.push_str(col_or_exec(&m, "NULL").as_str());
    sql.push_str(", ");
    sql.push_str(col_or_exec(&l, "NULL").as_str());
    sql.push_str(", ");
    sql.push_str(tps_e.as_str());
    sql.push_str(", ");
    sql.push_str(col_or_exec(&p, "0").as_str());
    sql.push_str(", ");
    sql.push_str(col_or_exec(&c, "0").as_str());
    sql.push_str(", ");
    sql.push_str(col_or_exec(&k, "0").as_str());
    sql.push_str(" FROM call_records WHERE SUBSTR(");
    sql.push_str(col_or_exec(&d, "recorded_at").as_str());
    sql.push_str(", 1, 10) >= SUBSTR(datetime('now', '-' || ?1 || ' days'), 1, 10)");
    sql
}

/// One call record as read: date, model, prompt, completion and cached
/// tokens.
pub type CallRecord = (String, String, i64, i64, i64);

/// Views of call records.
pub open spec fn records_view(s: Seq<CallRecord>) -> Seq<(Seq<char>, Seq<char>, i64, i64, i64)> {
    Seq::new(s.len(), |i: int| (s[i].0@, s[i].1@, s[i].2, s[i].3, s[i].4))
}

/// Position of the sums for a date and model.
pub open spec fn row_index(t: Seq<(Seq<char>, Seq<char>, i64, i64, i64, i64)>, date: Seq<char>, model: Seq<char>) -> Option<int>
    decreases t.len(),
{
    if t.len() == 0 {
        None
    } else if t.last().0 == date && t.last().1 == model {
        Some(t.len() - 1)
    } else {
        row_index(t.drop_last(), date, model)
    }
}

proof fn lemma_row_index(t: Seq<(Seq<char>, Seq<char>, i64, i64, i64, i64)>, date: Seq<char>, model: Seq<char>)
    ensures
        match row_index(t, date, model) {
            Some(k) => 0 <= k < t.len() && t[k].0 == date && t[k].1 == model && forall|j: int|
                k < j < t.len() ==> !(t[j].0 == date && t[j].1 == model),
            None => forall|j: int| 0 <= j < t.len() ==> !(t[j].0 == date && t[j].1 == model),
        },
    decreases t.len(),
{
    if t.len() > 0 && !(t.last().0 == date && t.last().1 == model) {
        lemma_row_index(t.drop_last(), date, model);
        assert forall|j: int| 0 <= j < t.len() - 1 implies t[j] == t.drop_last()[j] by {}
    }
}

/// The sums after one more call record; a record without a date or a model
/// is passed over.
pub open spec fn call_add(
    t: Seq<(Seq<char>, Seq<char>, i64, i64, i64, i64)>,
    r: (Seq<char>, Seq<char>, i64, i64, i64),
) -> Seq<(Seq<char>, Seq<char>, i64, i64, i64, i64)> {
    if r.0.len() == 0 || r.1.len() == 0 {
        t
    } else {
        match row_index(t, r.0, r.1) {
            Some(k) => t.update(
                k,
                (
                    t[k].0,
                    t[k].1,
                    sat_add_i64(t[k].2, r.2),
                    sat_add_i64(t[k].3, r.3),
                    sat_add_i64(t[k].4, r.4),
                    sat_add_i64(t[k].5, 1),
                ),
            ),
            None => t.push((r.0, r.1, r.2, r.3, r.4, 1i64)),
        }
    }
}

/// The sums of call records per date and model, in the order the keys
/// first appear.
pub open spec fn call_days(rows: Seq<(Seq<char>, Seq<char>, i64, i64, i64)>) -> Seq<(Seq<char>, Seq<char>, i64, i64, i64, i64)>
    decreases rows.len(),
{
    if rows.len() == 0 {
        Seq::empty()
    } else {
        call_add(call_days(rows.drop_last()), rows.last())
    }
}

/// Sums the tokens of the call records per date and model and counts the
/// records, passing over records without a date or a model.
pub fn aggregate_call_records(rows: &Vec<CallRecord>) -> (r: Vec<CallRow>)
    ensures
        rows_view(r@) == call_days(records_view(rows@)),
{
    let ghost rv = records_view(rows@);
    let mut t: Vec<CallRow> = Vec::new();
    assert(rows_view(t@) =~= Seq::empty());
    let mut i: usize = 0;
    while i < rows.len()
        invariant
            i <= rows@.len(),
            rv == records_view(rows@),
            rows_view(t@) == call_days(rv.take(i as int)),
        decreases rows@.len() - i,
    {
        assert(rv.take(i + 1).drop_last() == rv.take(i as int));
        assert(rv.take(i + 1).last() == rv[i as int]);
        let r = &rows[i];
        let ghost tv = rows_view(t@);
        if r.0.as_str().is_empty() || r.1.as_str().is_empty() {
            i = i + 1;
            continue;
        }
        proof {
            lemma_row_index(tv, r.0@, r.1@);
        }
        let mut k = t.len();
        let mut found = false;
        while k > 0 && !found
            invariant
                k <= t@.len(),
                tv == rows_view(t@),
                found ==> k < t@.len() && row_index(tv, r.0@, r.1@) == Some(k as int),
                !found ==> forall|j: int| k <= j < t@.len() ==> !(tv[j].0 == r.0@ && tv[j].1 == r.1@),
            decreases k + (if found { 0int } else { 1int }),
        {
            if str_eq(t[k - 1].0.as_str(), r.0.as_str()) && str_eq(t[k - 1].1.as_str(), r.1.as_str()) {
                proof {
                    lemma_row_index(tv, r.0@, r.1@);
                    match row_index(tv, r.0@, r.1@) {
                        Some(q) => {
                            if q < k - 1 {
                                assert(tv[k - 1].0 == r.0@ && tv[k - 1].1 == r.1@);
                            } else if q > k - 1 {
                                assert(!(tv[q].0 == r.0@ && tv[q].1 == r.1@));
                            }
                        },
                        None => {
                            assert(!(tv[k - 1].0 == r.0@ && tv[k - 1].1 == r.1@));
                        },
                    }
                }
                found = true;
            }
            k = k - 1;
        }
        if found {
            let e = t.remove(k);
            let n = (
                e.0,
                e.1,
                sat_add_i64_exec(e.2, r.2),
                sat_add_i64_exec(e.3, r.3),
                sat_add_i64_exec(e.4, r.4),
                sat_add_i64_exec(e.5, 1),
            );
            t.insert(k, n);
            assert(rows_view(t@) =~= tv.update(
                k as int,
                (n.0@, n.1@, n.2, n.3, n.4, n.5),
            ));
        } else {
            proof {
                if let Some(q) = row_index(tv, r.0@, r.1@) {
                    assert(!(tv[q].0 == r.0@ && tv[q].1 == r.1@));
                }
            }
            t.push((copy_string(&r.0), copy_string(&r.1), r.2, r.3, r.4, 1));
            assert(rows_view(t@) =~= tv.push((r.0@, r.1@, r.2, r.3, r.4, 1i64)));
        }
        i = i + 1;
    }
    assert(rv.take(rv.len() as int) == rv);
    t
}

/// The token side of the model detail statistics.
pub struct ModelDetailTokens {
    pub models: Vec<ModelTotals>,
    pub daily: Vec<DailyTokens>,
}

/// Builds the token side of the model detail statistics: the daily sums
/// merged from the request logs and the call records, latest date first,
/// and the totals of each model, most input and output tokens first.
pub fn model_detail_tokens(logs: &Vec<LogRow>, calls: &Vec<CallRow>) -> (r: ModelDetailTokens)
    ensures
        dailies_view(r.daily@) == stable_sort(merged_daily(rows_view(logs@), rows_view(calls@)), day_before()),
        totals_views(r.models@) == stable_sort(
            model_totals(merged_daily(rows_view(logs@), rows_view(calls@))),
            volume_before(),
        ),
{
    let merged = merge_daily_tokens(logs, calls);
    let totals = sum_model_totals(&merged);
    let models = sort_models_by_volume(&totals);
    let daily = sort_daily(&merged);
    ModelDetailTokens { models, daily }
}

/// What the usage database holds.
pub struct UsageDbInfo {
    pub exists: bool,
    pub tables: Vec<String>,
    pub call_records_columns: Vec<String>,
    pub call_records_count: i64,
    pub sample_row: Option<String>,
}

/// The report for a missing usage database.
pub fn usage_db_missing() -> (r: UsageDbInfo)
    ensures
        !r.exists,
        r.tables@.len() == 0,
        r.call_records_columns@.len() == 0,
        r.call_records_count == 0,
        r.sample_row is None,
{
    UsageDbInfo {
        exists: false,
        tables: Vec::new(),
        call_records_columns: Vec::new(),
        call_records_count: 0,
        sample_row: None,
    }
}

/// The report for a usage database that could not be opened: the error
/// stands in the table list.
pub fn usage_db_unreadable(error: &str) -> (r: UsageDbInfo)
    ensures
        r.exists,
        views(r.tables@) == seq!["error opening: "@ + error@],
        r.call_records_columns@.len() == 0,
        r.call_records_count == 0,
        r.sample_row is None,
{
    let t = vec![crate::text::concat("error opening: ", error)];
    assert(views(t@) =~= seq!["error opening: "@ + error@]);
    UsageDbInfo { exists: true, tables: t, call_records_columns: Vec::new(), call_records_count: 0, sample_row: None }
}

/// Whether the usage database has the call records table.
pub fn has_call_records(tables: &Vec<String>) -> (r: bool)
    ensures
        r == views(tables@).contains("call_records"@),
{
    let mut i: usize = 0;
    while i < tables.len()
        invariant
            i <= tables@.len(),
            forall|q: int| 0 <= q < i ==> tables@[q]@ != "call_records"@,
        decreases tables@.len() - i,
    {
        if str_eq(tables[i].as_str(), "call_records") {
            assert(views(tables@)[i as int] == "call_records"@);
            return true;
        }
        i = i + 1;
    }
    assert forall|q: int| 0 <= q < views(tables@).len() implies views(tables@)[q] != "call_records"@ by {}
    false
}


/// The sum of one figure of a model's daily sums.
pub open spec fn model_day_sum(
    days: Seq<(Seq<char>, Seq<char>, i64, i64, i64, i64, i64)>,
    model: Seq<char>,
    figure: spec_fn((Seq<char>, Seq<char>, i64, i64, i64, i64, i64)) -> i64,
) -> int
    decreases days.len(),
{
    if days.len() == 0 {
        0
    } else {
        model_day_sum(days.drop_last(), model, figure) + if days.last().1 == model {
            figure(days.last()) as int
        } else {
            0
        }
    }
}

/// A non-negative sum held in an `i64`, stopping at the largest.
pub open spec fn cap_i64(n: int) -> i64 {
    if n <= i64::MAX {
        n as i64
    } else {
        i64::MAX
    }
}

/// The daily sums count no negative requests or tokens.
pub open spec fn days_non_negative(days: Seq<(Seq<char>, Seq<char>, i64, i64, i64, i64, i64)>) -> bool {
    forall|i: int|
        0 <= i < days.len() ==> (#[trigger] days[i]).2 >= 0 && days[i].3 >= 0 && days[i].4 >= 0 && days[i].6 >= 0
}

proof fn lemma_day_sum_absent(
    days: Seq<(Seq<char>, Seq<char>, i64, i64, i64, i64, i64)>,
    model: Seq<char>,
    figure: spec_fn((Seq<char>, Seq<char>, i64, i64, i64, i64, i64)) -> i64,
)
    requires
        forall|i: int| 0 <= i < days.len() ==> (#[trigger] days[i]).1 != model,
    ensures
        model_day_sum(days, model, figure) == 0,
    decreases days.len(),
{
    if days.len() > 0 {
        lemma_day_sum_absent(days.drop_last(), model, figure);
    }
}

proof fn lemma_day_sum_non_negative(
    days: Seq<(Seq<char>, Seq<char>, i64, i64, i64, i64, i64)>,
    model: Seq<char>,
    figure: spec_fn((Seq<char>, Seq<char>, i64, i64, i64, i64, i64)) -> i64,
)
    requires
        forall|i: int| 0 <= i < days.len() ==> figure(#[trigger] days[i]) >= 0,
    ensures
        model_day_sum(days, model, figure) >= 0,
    decreases days.len(),
{
    if days.len() > 0 {
        lemma_day_sum_non_negative(days.drop_last(), model, figure);
    }
}

/// The model names of the totals: each once, exactly the models of the
/// days.
pub open spec fn totals_names_match(
    t: Seq<(Seq<char>, i64, i64, i64, i64)>,
    days: Seq<(Seq<char>, Seq<char>, i64, i64, i64, i64, i64)>,
) -> bool {
    &&& forall|a: int, b: int| 0 <= a < b < t.len() ==> t[a].0 != t[b].0
    &&& forall|k: int| 0 <= k < t.len() ==> exists|i: int| 0 <= i < days.len() && days[i].1 == (#[trigger] t[k]).0
    &&& forall|i: int| 0 <= i < days.len() ==> exists|k: int| 0 <= k < t.len() && t[k].0 == (#[trigger] days[i]).1
}

/// One figure of each model's totals is the capped sum of the matching
/// figure of its days.
pub open spec fn totals_figure_match(
    t: Seq<(Seq<char>, i64, i64, i64, i64)>,
    days: Seq<(Seq<char>, Seq<char>, i64, i64, i64, i64, i64)>,
    total: spec_fn((Seq<char>, i64, i64, i64, i64)) -> i64,
    figure: spec_fn((Seq<char>, Seq<char>, i64, i64, i64, i64, i64)) -> i64,
) -> bool {
    forall|k: int| 0 <= k < t.len() ==> total(#[trigger] t[k]) == cap_i64(model_day_sum(days, t[k].0, figure))
}

proof fn lemma_names_step(
    t0: Seq<(Seq<char>, i64, i64, i64, i64)>,
    rest: Seq<(Seq<char>, Seq<char>, i64, i64, i64, i64, i64)>,
    d: (Seq<char>, Seq<char>, i64, i64, i64, i64, i64),
)
    requires
        totals_names_match(t0, rest),
    ensures
        totals_names_match(totals_add(t0, d), rest.push(d)),
{
    let days = rest.push(d);
    let t = totals_add(t0, d);
    let m = d.1;
    lemma_model_index(t0, m);
    let (base, k) = match model_index(t0, m) {
        Some(k) => (t0, k),
        None => (t0.push((m, 0i64, 0i64, 0i64, 0i64)), t0.len() as int),
    };
    assert(t.len() == base.len());
    assert(forall|q: int| 0 <= q < t.len() ==> t[q].0 == base[q].0);
    assert forall|a: int, b: int| 0 <= a < b < t.len() implies t[a].0 != t[b].0 by {
        assert(t[a].0 == base[a].0 && t[b].0 == base[b].0);
    }
    assert forall|q: int| 0 <= q < t.len() implies exists|i: int| 0 <= i < days.len() && days[i].1 == (#[trigger] t[q]).0 by {
        if q == k {
            assert(days[days.len() - 1].1 == t[q].0);
        } else {
            let i = choose|i: int| 0 <= i < rest.len() && rest[i].1 == (#[trigger] t0[q]).0;
            assert(days[i] == rest[i]);
        }
    }
    assert forall|i: int| 0 <= i < days.len() implies exists|q: int| 0 <= q < t.len() && t[q].0 == (#[trigger] days[i]).1 by {
        if i == days.len() - 1 {
            assert(t[k].0 == days[i].1);
        } else {
            assert(days[i] == rest[i]);
            let q = choose|q: int| 0 <= q < t0.len() && (#[trigger] t0[q]).0 == rest[i].1;
            assert(t[q].0 == days[i].1);
        }
    }
}

proof fn lemma_figure_step(
    t0: Seq<(Seq<char>, i64, i64, i64, i64)>,
    rest: Seq<(Seq<char>, Seq<char>, i64, i64, i64, i64, i64)>,
    d: (Seq<char>, Seq<char>, i64, i64, i64, i64, i64),
    total: spec_fn((Seq<char>, i64, i64, i64, i64)) -> i64,
    figure: spec_fn((Seq<char>, Seq<char>, i64, i64, i64, i64, i64)) -> i64,
)
    requires
        totals_names_match(t0, rest),
        totals_figure_match(t0, rest, total, figure),
        forall|i: int| 0 <= i < rest.len() ==> figure(#[trigger] rest[i]) >= 0,
        figure(d) >= 0,
        total((d.1, 0i64, 0i64, 0i64, 0i64)) == 0,
        forall|e: (Seq<char>, i64, i64, i64, i64)|
            #[trigger] total((e.0, sat_add_i64(e.1, d.6), sat_add_i64(e.2, d.2), sat_add_i64(e.3, d.3), sat_add_i64(e.4, d.4)))
                == sat_add_i64(total(e), figure(d)),
    ensures
        totals_figure_match(totals_add(t0, d), rest.push(d), total, figure),
{
    let days = rest.push(d);
    let t = totals_add(t0, d);
    let m = d.1;
    assert(days.drop_last() =~= rest);
    lemma_model_index(t0, m);
    lemma_day_sum_non_negative(rest, m, figure);
    let (base, k) = match model_index(t0, m) {
        Some(k) => (t0, k),
        None => (t0.push((m, 0i64, 0i64, 0i64, 0i64)), t0.len() as int),
    };
    if model_index(t0, m) is None {
        assert forall|i: int| 0 <= i < rest.len() implies (#[trigger] rest[i]).1 != m by {
            if rest[i].1 == m {
                let kk = choose|kk: int| 0 <= kk < t0.len() && (#[trigger] t0[kk]).0 == rest[i].1;
                assert(t0[kk].0 == m);
            }
        }
        lemma_day_sum_absent(rest, m, figure);
    }
    let e = base[k];
    assert(t == base.update(k, (e.0, sat_add_i64(e.1, d.6), sat_add_i64(e.2, d.2), sat_add_i64(e.3, d.3), sat_add_i64(e.4, d.4))));
    assert(total(base[k]) == cap_i64(model_day_sum(rest, m, figure)));
    assert forall|q: int| 0 <= q < t.len() implies total(#[trigger] t[q]) == cap_i64(model_day_sum(days, t[q].0, figure)) by {
        if q == k {
            assert(t[q].0 == m);
            assert(total(t[q]) == sat_add_i64(total(base[k]), figure(d)));
        } else {
            assert(t[q] == t0[q]);
            assert(t0[q].0 != m);
        }
    }
}

/// The totals of each model hold the sums of its daily requests, input,
/// output and cached tokens over all its days (each stopping at the
/// largest `i64`); each model that has a day appears exactly once, and no
/// other.
pub proof fn lemma_model_totals_sum_days(days: Seq<(Seq<char>, Seq<char>, i64, i64, i64, i64, i64)>)
    requires
        days_non_negative(days),
    ensures
        totals_names_match(model_totals(days), days),
        totals_figure_match(model_totals(days), days, |e: (Seq<char>, i64, i64, i64, i64)| e.1, |d: (Seq<char>, Seq<char>, i64, i64, i64, i64, i64)| d.6),
        totals_figure_match(model_totals(days), days, |e: (Seq<char>, i64, i64, i64, i64)| e.2, |d: (Seq<char>, Seq<char>, i64, i64, i64, i64, i64)| d.2),
        totals_figure_match(model_totals(days), days, |e: (Seq<char>, i64, i64, i64, i64)| e.3, |d: (Seq<char>, Seq<char>, i64, i64, i64, i64, i64)| d.3),
        totals_figure_match(model_totals(days), days, |e: (Seq<char>, i64, i64, i64, i64)| e.4, |d: (Seq<char>, Seq<char>, i64, i64, i64, i64, i64)| d.4),
    decreases days.len(),
{
    if days.len() > 0 {
        let rest = days.drop_last();
        let d = days.last();
        assert(rest.push(d) =~= days);
        assert forall|i: int| 0 <= i < rest.len() implies (#[trigger] rest[i]).2 >= 0 && rest[i].3 >= 0 && rest[i].4
            >= 0 && rest[i].6 >= 0 by {
            assert(rest[i] == days[i]);
        }
        assert(d == days[days.len() - 1]);
        lemma_model_totals_sum_days(rest);
        let t0 = model_totals(rest);
        lemma_names_step(t0, rest, d);
        lemma_figure_step(t0, rest, d, |e: (Seq<char>, i64, i64, i64, i64)| e.1, |x: (Seq<char>, Seq<char>, i64, i64, i64, i64, i64)| x.6);
        lemma_figure_step(t0, rest, d, |e: (Seq<char>, i64, i64, i64, i64)| e.2, |x: (Seq<char>, Seq<char>, i64, i64, i64, i64, i64)| x.2);
        lemma_figure_step(t0, rest, d, |e: (Seq<char>, i64, i64, i64, i64)| e.3, |x: (Seq<char>, Seq<char>, i64, i64, i64, i64, i64)| x.3);
        lemma_figure_step(t0, rest, d, |e: (Seq<char>, i64, i64, i64, i64)| e.4, |x: (Seq<char>, Seq<char>, i64, i64, i64, i64, i64)| x.4);
    }
}

} // verus!
