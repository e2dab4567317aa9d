use vstd::prelude::*;

use crate::json::{elements_of, field, parse_json, parsed_json, str_of, u64_of, view_json, JVal, JsonValue};
use crate::tally::{
    count_desc, lemma_sort_by_count_desc_sorted, sort_by_count_desc, sort_stats_desc, stats_view, tally_add_n, tally_n,
    ToolCallStat,
};
use crate::text::{copy_string, str_eq};

verus! {

/// A name with a count, as the analytics summary ranks tools, skills and
/// sub-agents.
pub struct NameCount {
    pub name: String,
    pub count: usize,
}

/// Views of ranked names.
pub open spec fn names_view(s: Seq<NameCount>) -> Seq<(Seq<char>, usize)> {
    Seq::new(s.len(), |i: int| (s[i].name@, s[i].count))
}

/// Sessions and tokens of one project.
pub struct ProjectStats {
    pub project: String,
    pub session_count: usize,
    pub total_messages: usize,
    pub total_tokens: u64,
}

/// Sessions, messages and tokens of one day.
pub struct DailyStats {
    pub date: String,
    pub session_count: usize,
    pub message_count: usize,
    pub input_tokens: u64,
    pub output_tokens: u64,
}

/// Tokens and messages of one model on one day.
pub struct ModelDailyRow {
    pub date: String,
    pub model: String,
    pub input_tokens: u64,
    pub output_tokens: u64,
    pub cache_read: u64,
    pub message_count: usize,
}

/// The name and count of an entry of a stored call list, when it has both.
pub open spec fn item_count(j: JVal) -> Option<(Seq<char>, usize)> {
    match (str_of(field(j, "name"@)), u64_of(field(j, "count"@))) {
        (Some(n), Some(c)) => Some((n, c as usize)),
        _ => None,
    }
}

/// The counts after the entries of one stored list.
pub open spec fn add_items(t: Seq<(Seq<char>, usize)>, items: Seq<JVal>) -> Seq<(Seq<char>, usize)>
    decreases items.len(),
{
    if items.len() == 0 {
        t
    } else {
        let t1 = add_items(t, items.drop_last());
        match item_count(items.last()) {
            Some((n, c)) => tally_add_n(t1, n, c),
            None => t1,
        }
    }
}

/// The counts after one stored list; a text that is not a JSON array adds
/// nothing.
pub open spec fn add_list(t: Seq<(Seq<char>, usize)>, doc: Option<JVal>) -> Seq<(Seq<char>, usize)> {
    match elements_of(doc) {
        Some(items) => add_items(t, items),
        None => t,
    }
}

/// The counts summed over the stored lists, given as parsed.
pub open spec fn sum_lists(docs: Seq<Option<JVal>>) -> Seq<(Seq<char>, usize)>
    decreases docs.len(),
{
    if docs.len() == 0 {
        Seq::empty()
    } else {
        add_list(sum_lists(docs.drop_last()), docs.last())
    }
}

/// The first ten entries.
pub open spec fn top_ten(s: Seq<(Seq<char>, usize)>) -> Seq<(Seq<char>, usize)> {
    if s.len() <= 10 {
        s
    } else {
        s.take(10)
    }
}

/// Views of parsed lists.
pub open spec fn docs_view(s: Seq<Option<JsonValue>>) -> Seq<Option<JVal>> {
    Seq::new(
        s.len(),
        |i: int|
            match s[i] {
                Some(v) => Some(view_json(v)),
                None => None,
            },
    )
}

/// What the stored lists parse to.
pub open spec fn parsed_lists(texts: Seq<Seq<char>>) -> Seq<Option<JVal>> {
    Seq::new(texts.len(), |i: int| parsed_json(texts[i]))
}

fn add_items_exec(t: &mut Vec<ToolCallStat>, items: &Vec<JsonValue>)
    ensures
        stats_view(final(t)@) == add_items(stats_view(old(t)@), crate::json::view_elements(items@)),
{
    let ghost iv = crate::json::view_elements(items@);
    let ghost t0 = stats_view(t@);
    let mut i: usize = 0;
    assert(iv.take(0) =~= Seq::<JVal>::empty());
    while i < items.len()
        invariant
            i <= items@.len(),
            iv == crate::json::view_elements(items@),
            iv.len() == items@.len(),
            stats_view(t@) == add_items(t0, iv.take(i as int)),
        decreases items@.len() - i,
    {
        assert(iv.take(i + 1).drop_last() == iv.take(i as int));
        assert(iv.take(i + 1).last() == iv[i as int]);
        let item = &items[i];
        assert(iv[i as int] == view_json(*item));
        let name = item.get("name");
        let count = crate::json::field_u64(Some(item), "count");
        proof {
            reveal_strlit("name");
            reveal_strlit("count");
        }
        match name {
            Some(n) => match n.as_str() {
                Some(ns) => match count {
                    Some(c) => {
                        tally_n(t, ns, c as usize);
                    },
                    None => {},
                },
                None => {},
            },
            None => {},
        }
        i = i + 1;
    }
    assert(iv.take(iv.len() as int) == iv);
}

/// Sums the counts of the stored call lists, given as parsed, and ranks
/// them: highest count first, equal counts in the order their names first
/// appear, at most ten.
pub fn rank_parsed_lists(docs: &Vec<Option<JsonValue>>) -> (r: Vec<NameCount>)
    ensures
        names_view(r@) == top_ten(sort_by_count_desc(sum_lists(docs_view(docs@)))),
{
    let ghost dv = docs_view(docs@);
    let mut t: Vec<ToolCallStat> = Vec::new();
    assert(stats_view(t@) =~= Seq::empty());
    let mut i: usize = 0;
    while i < docs.len()
        invariant
            i <= docs@.len(),
            dv == docs_view(docs@),
            stats_view(t@) == sum_lists(dv.take(i as int)),
        decreases docs@.len() - i,
    {
        assert(dv.take(i + 1).drop_last() == dv.take(i as int));
        assert(dv.take(i + 1).last() == dv[i as int]);
        match &docs[i] {
            Some(d) => match d.as_array() {
                Some(items) => {
                    add_items_exec(&mut t, items);
                },
                None => {},
            },
            None => {},
        }
        i = i + 1;
    }
    assert(dv.take(dv.len() as int) == dv);
    let sorted = sort_stats_desc(t);
    let ghost sv = stats_view(sorted@);
    let n = if sorted.len() <= 10 {
        sorted.len()
    } else {
        10
    };
    let mut out: Vec<NameCount> = Vec::new();
    let mut k: usize = 0;
    while k < n
        invariant
            k <= n,
            n <= sorted@.len(),
            sv == stats_view(sorted@),
            names_view(out@) == sv.take(k as int),
        decreases n - k,
    {
        let e = &sorted[k];
        assert(sv[k as int] == (sorted@[k as int].name@, sorted@[k as int].count));
        let ghost before = names_view(out@);
        out.push(NameCount { name: copy_string(&e.name), count: e.count });
        assert(names_view(out@) =~= before.push(sv[k as int]));
        assert(sv.take(k + 1) =~= sv.take(k as int).push(sv[k as int]));
        k = k + 1;
    }
    assert(names_view(out@) =~= top_ten(sv));
    out
}

/// Parses the stored call lists and ranks their names by summed count.
pub fn rank_call_lists(texts: &Vec<String>) -> (r: Vec<NameCount>)
    ensures
        names_view(r@) == top_ten(sort_by_count_desc(sum_lists(parsed_lists(crate::text::views(texts@))))),
{
    let ghost tv = crate::text::views(texts@);
    let mut docs: Vec<Option<JsonValue>> = Vec::new();
    let mut i: usize = 0;
    while i < texts.len()
        invariant
            i <= texts@.len(),
            tv == crate::text::views(texts@),
            docs_view(docs@) == parsed_lists(tv).take(i as int),
        decreases texts@.len() - i,
    {
        let d = parse_json(texts[i].as_str());
        assert(tv[i as int] == texts@[i as int]@);
        let ghost before = docs_view(docs@);
        docs.push(d);
        assert(docs_view(docs@) =~= before.push(parsed_lists(tv)[i as int]));
        assert(parsed_lists(tv).take(i + 1) =~= parsed_lists(tv).take(i as int).push(parsed_lists(tv)[i as int]));
        i = i + 1;
    }
    assert(parsed_lists(tv).take(tv.len() as int) =~= parsed_lists(tv));
    rank_parsed_lists(&docs)
}

/// Whether a session file must be parsed again: when it was marked for it,
/// when it was never recorded, or when its size or modification time
/// changed.
pub open spec fn needs_sync(forced: bool, known: Option<(u64, Seq<char>)>, size: u64, mtime: Seq<char>) -> bool {
    forced || match known {
        Some((s, m)) => !(s == size && m == mtime),
        None => true,
    }
}

/// Decides whether a session file must be parsed again.
pub fn session_needs_sync(forced: bool, known: &Option<(u64, String)>, size: u64, mtime: &str) -> (r: bool)
    ensures
        r == needs_sync(
            forced,
            match known {
                Some(k) => Some((k.0, k.1@)),
                None => None,
            },
            size,
            mtime@,
        ),
{
    if forced {
        return true;
    }
    match known {
        Some(k) => !(k.0 == size && str_eq(k.1.as_str(), mtime)),
        None => true,
    }
}

/// The ranking holds at most ten names, highest count first.
pub proof fn lemma_ranking_sorted(s: Seq<(Seq<char>, usize)>)
    ensures
        top_ten(sort_by_count_desc(s)).len() <= 10,
        count_desc(top_ten(sort_by_count_desc(s))),
{
    lemma_sort_by_count_desc_sorted(s);
    let t = sort_by_count_desc(s);
    if t.len() > 10 {
        assert forall|i: int, j: int| 0 <= i < j < t.take(10).len() implies #[trigger] t.take(10)[i].1 >= #[trigger] t.take(10)[j].1 by {
            assert(t.take(10)[i] == t[i] && t.take(10)[j] == t[j]);
        }
    }
}

} // verus!
