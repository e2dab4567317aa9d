use vstd::prelude::*;

use crate::db::ModelRoute;
use crate::text::str_eq;

verus! {

/// A candidate route for a model.
pub struct RouteCandidate {
    pub route: ModelRoute,
}

/// A route's key: provider id and model row id.
pub type RouteKey = (i64, i64);

/// The failure record of a route: recent failures, and the time (in
/// milliseconds) until which it is disabled.
pub type Health = (u32, Option<u64>);

/// How long a route that failed three times in a row stays disabled.
pub const DISABLE_MS: u64 = 60000;

/// The bookkeeping of the router: requests in flight per route and the
/// failure record of each route.
pub struct RouteBook {
    in_flight: Vec<(RouteKey, u32)>,
    health: Vec<(RouteKey, Health)>,
}

/// The value of the first entry for `key`.
pub open spec fn entry_of<V>(s: Seq<(RouteKey, V)>, key: RouteKey) -> Option<V>
    decreases s.len(),
{
    if s.len() == 0 {
        None
    } else if s[0].0 == key {
        Some(s[0].1)
    } else {
        entry_of(s.drop_first(), key)
    }
}

/// The entries with the first entry for `key` set to `v`, or `v` added at
/// the end.
pub open spec fn entry_set<V>(s: Seq<(RouteKey, V)>, key: RouteKey, v: V) -> Seq<(RouteKey, V)>
    decreases s.len(),
{
    if s.len() == 0 {
        seq![(key, v)]
    } else if s[0].0 == key {
        s.update(0, (key, v))
    } else {
        seq![s[0]] + entry_set(s.drop_first(), key, v)
    }
}

/// Setting an entry makes it read back, and leaves the other keys alone.
pub proof fn lemma_entry_set<V>(s: Seq<(RouteKey, V)>, key: RouteKey, v: V, other: RouteKey)
    ensures
        entry_of(entry_set(s, key, v), key) == Some(v),
        other != key ==> entry_of(entry_set(s, key, v), other) == entry_of(s, other),
    decreases s.len(),
{
    if s.len() == 0 {
        let u = seq![(key, v)];
        assert(u.drop_first() =~= Seq::<(RouteKey, V)>::empty());
        assert(u[0] == (key, v));
        assert(entry_set(s, key, v) == u);
        if other != key {
            assert(entry_of(u, other) == entry_of(u.drop_first(), other));
        }
    } else if s[0].0 == key {
        let u = s.update(0, (key, v));
        assert(u.drop_first() =~= s.drop_first());
        assert(u[0] == (key, v));
        assert(entry_set(s, key, v) == u);
        if other != key {
            assert(entry_of(u, other) == entry_of(u.drop_first(), other));
            assert(entry_of(s, other) == entry_of(s.drop_first(), other));
        }
    } else {
        lemma_entry_set(s.drop_first(), key, v, other);
        let t = seq![s[0]] + entry_set(s.drop_first(), key, v);
        assert(t.drop_first() =~= entry_set(s.drop_first(), key, v));
        assert(t[0] == s[0]);
        assert(t.len() > 0);
        if other != key {
            if s[0].0 == other {
                assert(entry_of(t, other) == Some(s[0].1));
            } else {
                assert(entry_of(t, other) == entry_of(t.drop_first(), other));
                assert(entry_of(s, other) == entry_of(s.drop_first(), other));
            }
        }
    }
}

/// Finds the first entry for `key`.
fn find_entry<V>(s: &Vec<(RouteKey, V)>, key: RouteKey) -> (r: Option<usize>)
    ensures
        match r {
            Some(i) => i < s@.len() && s@[i as int].0 == key && entry_of(s@, key) == Some(s@[i as int].1) && forall|
                v: V,
            | #[trigger] entry_set(s@, key, v) == s@.update(i as int, (key, v)),
            None => entry_of(s@, key) is None && forall|v: V| #[trigger] entry_set(s@, key, v) == s@.push((key, v)),
        },
{
    let ghost q = s@;
    let mut i: usize = 0;
    assert(q.skip(0) == q);
    assert forall|v: V| #[trigger] entry_set(q, key, v) == q.take(0) + entry_set(q.skip(0), key, v) by {
        assert(q.take(0) + entry_set(q, key, v) =~= entry_set(q, key, v));
    }
    while i < s.len()
        invariant
            i <= q.len(),
            q == s@,
            entry_of(q, key) == entry_of(q.skip(i as int), key),
            forall|v: V| #[trigger] entry_set(q, key, v) == q.take(i as int) + entry_set(q.skip(i as int), key, v),
        decreases q.len() - i,
    {
        assert(q.skip(i as int)[0] == q[i as int]);
        if s[i].0.0 == key.0 && s[i].0.1 == key.1 {
            assert forall|v: V| #[trigger] entry_set(q, key, v) == q.update(i as int, (key, v)) by {
                assert(entry_set(q.skip(i as int), key, v) == q.skip(i as int).update(0, (key, v)));
                assert(q.take(i as int) + q.skip(i as int).update(0, (key, v)) =~= q.update(i as int, (key, v)));
            }
            return Some(i);
        }
        assert(q.skip(i as int).drop_first() == q.skip(i + 1));
        assert forall|v: V| #[trigger] entry_set(q, key, v) == q.take(i + 1) + entry_set(q.skip(i + 1), key, v) by {
            assert(entry_set(q.skip(i as int), key, v) == seq![q.skip(i as int)[0]] + entry_set(q.skip(i + 1), key, v));
            assert(q.take(i as int) + (seq![q.skip(i as int)[0]] + entry_set(q.skip(i + 1), key, v)) =~= q.take(i + 1)
                + entry_set(q.skip(i + 1), key, v));
        }
        i = i + 1;
    }
    assert(q.skip(i as int).len() == 0);
    assert forall|v: V| #[trigger] entry_set(q, key, v) == q.push((key, v)) by {
        assert(entry_set(q.skip(i as int), key, v) == seq![(key, v)]);
        assert(q.take(i as int) + seq![(key, v)] =~= q.push((key, v)));
    }
    None
}

impl RouteBook {
    /// Requests in flight per route.
    pub closed spec fn flights(self) -> Seq<(RouteKey, u32)> {
        self.in_flight@
    }

    /// Failure records per route.
    pub closed spec fn records(self) -> Seq<(RouteKey, Health)> {
        self.health@
    }

    /// The requests in flight on a route.
    pub open spec fn flight(self, key: RouteKey) -> u32 {
        match entry_of(self.flights(), key) {
            Some(n) => n,
            None => 0,
        }
    }

    /// The failure record of a route, fresh when it has none.
    pub open spec fn record(self, key: RouteKey) -> Health {
        match entry_of(self.records(), key) {
            Some(h) => h,
            None => (0, None),
        }
    }

    /// A route is disabled at `now` when its record says so until a later
    /// time.
    pub open spec fn disabled_at(self, key: RouteKey, now: u64) -> bool {
        match self.record(key).1 {
            Some(until) => now < until,
            None => false,
        }
    }

    /// A book with nothing in flight and no failures.
    pub fn new() -> (r: RouteBook)
        ensures
            forall|k: RouteKey| r.flight(k) == 0 && r.record(k) == (0u32, None::<u64>),
    {
        RouteBook { in_flight: Vec::new(), health: Vec::new() }
    }

    /// Counts one more request in flight on a route (wrapping, as an
    /// atomic counter does).
    pub fn request_start(&mut self, provider_id: i64, model_db_id: i64)
        ensures
            final(self).flights() == entry_set(
                old(self).flights(),
                (provider_id, model_db_id),
                old(self).flight((provider_id, model_db_id)).wrapping_add(1),
            ),
            final(self).records() == old(self).records(),
    {
        let key = (provider_id, model_db_id);
        match find_entry(&self.in_flight, key) {
            Some(i) => {
                let n = self.in_flight[i].1.wrapping_add(1);
                self.in_flight.set(i, (key, n));
            },
            None => {
                self.in_flight.push((key, 1));
            },
        }
    }

    /// Counts one request fewer in flight on a route that has a counter
    /// (wrapping below zero, as an atomic counter does).
    pub fn request_end(&mut self, provider_id: i64, model_db_id: i64)
        ensures
            final(self).flights() == match entry_of(old(self).flights(), (provider_id, model_db_id)) {
                Some(n) => entry_set(old(self).flights(), (provider_id, model_db_id), n.wrapping_sub(1)),
                None => old(self).flights(),
            },
            final(self).records() == old(self).records(),
    {
        let key = (provider_id, model_db_id);
        match find_entry(&self.in_flight, key) {
            Some(i) => {
                let n = self.in_flight[i].1.wrapping_sub(1);
                self.in_flight.set(i, (key, n));
            },
            None => {},
        }
    }

    /// The requests in flight on a route.
    pub fn in_flight_count(&self, provider_id: i64, model_db_id: i64) -> (r: u32)
        ensures
            r == self.flight((provider_id, model_db_id)),
    {
        match find_entry(&self.in_flight, (provider_id, model_db_id)) {
            Some(i) => self.in_flight[i].1,
            None => 0,
        }
    }

    /// Records a failed request at `now_ms`: the route's recent failures
    /// count one more, and from the third on the route is disabled for a
    /// minute.
    pub fn record_failure(&mut self, provider_id: i64, model_db_id: i64, now_ms: u64)
        ensures
            final(self).records() == entry_set(
                old(self).records(),
                (provider_id, model_db_id),
                failed(old(self).record((provider_id, model_db_id)), now_ms),
            ),
            final(self).flights() == old(self).flights(),
    {
        let key = (provider_id, model_db_id);
        let idx = find_entry(&self.health, key);
        let h: Health = match idx {
            Some(i) => self.health[i].1,
            None => (0, None),
        };
        let f = if h.0 < u32::MAX {
            h.0 + 1
        } else {
            h.0
        };
        let until = if f >= 3 {
            Some(if now_ms <= u64::MAX - DISABLE_MS {
                now_ms + DISABLE_MS
            } else {
                u64::MAX
            })
        } else {
            h.1
        };
        match idx {
            Some(i) => {
                self.health.set(i, (key, (f, until)));
            },
            None => {
                self.health.push((key, (f, until)));
            },
        }
    }

    /// Records a successful request: a route with a record has its failures
    /// forgotten and is enabled again.
    pub fn record_success(&mut self, provider_id: i64, model_db_id: i64)
        ensures
            final(self).records() == match entry_of(old(self).records(), (provider_id, model_db_id)) {
                Some(_) => entry_set(old(self).records(), (provider_id, model_db_id), (0u32, None::<u64>)),
                None => old(self).records(),
            },
            final(self).flights() == old(self).flights(),
    {
        let key = (provider_id, model_db_id);
        match find_entry(&self.health, key) {
            Some(i) => {
                self.health.set(i, (key, (0, None)));
            },
            None => {},
        }
    }

    /// Starts a route's record afresh, as refreshed metrics do.
    pub fn reset_route(&mut self, provider_id: i64, model_db_id: i64)
        ensures
            final(self).records() == entry_set(old(self).records(), (provider_id, model_db_id), (0u32, None::<u64>)),
            final(self).flights() == old(self).flights(),
    {
        let key = (provider_id, model_db_id);
        match find_entry(&self.health, key) {
            Some(i) => {
                self.health.set(i, (key, (0, None)));
            },
            None => {
                self.health.push((key, (0, None)));
            },
        }
    }

    /// Whether a route is disabled at `now_ms`.
    pub fn is_disabled(&self, provider_id: i64, model_db_id: i64, now_ms: u64) -> (r: bool)
        ensures
            r == self.disabled_at((provider_id, model_db_id), now_ms),
    {
        match find_entry(&self.health, (provider_id, model_db_id)) {
            Some(i) => match self.health[i].1.1 {
                Some(until) => now_ms < until,
                None => false,
            },
            None => false,
        }
    }
}

/// A record after one more failure at `now`: one more recent failure
/// (stopping at the largest count), and from the third on disabled until a
/// minute later (or the end of time).
pub open spec fn failed(h: Health, now: u64) -> Health {
    let f = if h.0 < u32::MAX {
        (h.0 + 1) as u32
    } else {
        h.0
    };
    let until = if f >= 3 {
        Some(if now + DISABLE_MS <= u64::MAX {
            (now + DISABLE_MS) as u64
        } else {
            u64::MAX
        })
    } else {
        h.1
    };
    (f, until)
}

/// A request that starts and ends leaves the route's count as it was.
pub proof fn lemma_start_end_restores(b: RouteBook, key: RouteKey)
    ensures
        ({
            let s1 = entry_set(b.flights(), key, b.flight(key).wrapping_add(1));
            let s2 = match entry_of(s1, key) {
                Some(n) => entry_set(s1, key, n.wrapping_sub(1)),
                None => s1,
            };
            let after: u32 = match entry_of(s2, key) {
                Some(n) => n,
                None => 0,
            };
            after == b.flight(key)
        }),
{
    let s1 = entry_set(b.flights(), key, b.flight(key).wrapping_add(1));
    lemma_entry_set(b.flights(), key, b.flight(key).wrapping_add(1), key);
    let n = b.flight(key).wrapping_add(1);
    lemma_entry_set(s1, key, n.wrapping_sub(1), key);
    assert(n.wrapping_sub(1) == b.flight(key));
}

/// The third failure in a row disables a route for a minute from then;
/// the first two do not.
pub proof fn lemma_third_failure_disables(now: u64, later: u64)
    requires
        now + DISABLE_MS <= u64::MAX,
        now <= later,
        later < now + DISABLE_MS,
    ensures
        failed((0, None), now).1 is None,
        failed(failed((0, None), now), now).1 is None,
        ({
            let h = failed(failed(failed((0, None), now), now), now);
            match h.1 {
                Some(until) => later < until,
                None => false,
            }
        }),
{
    let h0: Health = (0, None);
    let h1 = failed(h0, now);
    assert(h1 == (1u32, None::<u64>));
    let h2 = failed(h1, now);
    assert(h2 == (2u32, None::<u64>));
    let h3 = failed(h2, now);
    assert(h3.0 == 3);
    assert(h3.1 == Some((now + DISABLE_MS) as u64));
}

/// Every failure of a route that already has two or more recent failures
/// (no success in between) disables it from that moment: the count grows
/// by one (up to the largest `u32`), and the route stays disabled until a
/// minute after this failure (or the end of time), whatever an earlier
/// disabling said.  Other routes keep their records.
pub proof fn lemma_repeated_failure_disables(b: RouteBook, key: RouteKey, other: RouteKey, now: u64)
    requires
        b.record(key).0 >= 2,
    ensures
        ({
            let old_count = b.record(key).0;
            match entry_of(entry_set(b.records(), key, failed(b.record(key), now)), key) {
                Some(h) => {
                    &&& h.0 == (if old_count < u32::MAX { old_count + 1 } else { old_count as int })
                    &&& h.1 == Some(if now + DISABLE_MS <= u64::MAX { (now + DISABLE_MS) as u64 } else { u64::MAX })
                    &&& (now < u64::MAX ==> match h.1 {
                        Some(until) => now < until,
                        None => false,
                    })
                },
                None => false,
            }
        }),
        other != key ==> entry_of(entry_set(b.records(), key, failed(b.record(key), now)), other) == entry_of(
            b.records(),
            other,
        ),
{
    lemma_entry_set(b.records(), key, failed(b.record(key), now), key);
    lemma_entry_set(b.records(), key, failed(b.record(key), now), other);
}

/// A success enables a route again, whatever its record was.
pub proof fn lemma_success_enables(b: RouteBook, key: RouteKey, now: u64)
    requires
        entry_of(b.records(), key) is Some,
    ensures
        match entry_of(entry_set(b.records(), key, (0u32, None::<u64>)), key) {
            Some(h) => h == (0u32, None::<u64>),
            None => false,
        },
{
    lemma_entry_set(b.records(), key, (0u32, None::<u64>), key);
}

/// Records of other routes are left alone by a failure.
pub proof fn lemma_failure_is_local(b: RouteBook, key: RouteKey, other: RouteKey, now: u64)
    requires
        other != key,
    ensures
        entry_of(entry_set(b.records(), key, failed(b.record(key), now)), other) == entry_of(b.records(), other),
{
    lemma_entry_set(b.records(), key, failed(b.record(key), now), other);
}

/// The routes the weighted choice draws from: those billed by plan, when
/// there are any, else all.
pub open spec fn route_pool(billing: Seq<Seq<char>>) -> Seq<int> {
    if exists|i: int| 0 <= i < billing.len() && billing[i] == "plan"@ {
        indices_where(billing, billing.len() as int)
    } else {
        Seq::new(billing.len(), |i: int| i)
    }
}

/// Positions below `n` billed by plan, in order.
pub open spec fn indices_where(billing: Seq<Seq<char>>, n: int) -> Seq<int>
    decreases n,
{
    if n <= 0 {
        Seq::empty()
    } else if billing[n - 1] == "plan"@ {
        indices_where(billing, n - 1).push(n - 1)
    } else {
        indices_where(billing, n - 1)
    }
}

/// Billing types of routes.
pub open spec fn billing_of(rs: Seq<ModelRoute>) -> Seq<Seq<char>> {
    Seq::new(rs.len(), |i: int| rs[i].billing_type@)
}

/// Picks the routes the weighted choice draws from.
pub fn candidate_pool(candidates: &Vec<ModelRoute>) -> (r: Vec<usize>)
    ensures
        Seq::new(r@.len(), |i: int| r@[i] as int) == route_pool(billing_of(candidates@)),
{
    let ghost bv = billing_of(candidates@);
    proof {
        reveal_strlit("plan");
    }
    let mut plans: Vec<usize> = Vec::new();
    let mut i: usize = 0;
    while i < candidates.len()
        invariant
            i <= candidates@.len(),
            bv == billing_of(candidates@),
            Seq::new(plans@.len(), |k: int| plans@[k] as int) == indices_where(bv, i as int),
            plans@.len() == 0 ==> forall|k: int| 0 <= k < i ==> bv[k] != "plan"@,
        decreases candidates@.len() - i,
    {
        let ghost before = Seq::new(plans@.len(), |k: int| plans@[k] as int);
        if str_eq(candidates[i].billing_type.as_str(), "plan") {
            plans.push(i);
            assert(Seq::new(plans@.len(), |k: int| plans@[k] as int) =~= before.push(i as int));
        }
        i = i + 1;
    }
    if plans.len() > 0 {
        proof {
            assert(plans@.len() > 0);
            let idx = plans@[0] as int;
            lemma_indices_where(bv, bv.len() as int);
            assert(Seq::new(plans@.len(), |k: int| plans@[k] as int)[0] == idx);
            assert(bv[idx] == "plan"@);
        }
        plans
    } else {
        let mut all: Vec<usize> = Vec::new();
        let mut j: usize = 0;
        while j < candidates.len()
            invariant
                j <= candidates@.len(),
                Seq::new(all@.len(), |k: int| all@[k] as int) == Seq::new(j as nat, |k: int| k),
            decreases candidates@.len() - j,
        {
            let ghost before = Seq::new(all@.len(), |k: int| all@[k] as int);
            all.push(j);
            assert(Seq::new(all@.len(), |k: int| all@[k] as int) =~= before.push(j as int));
            assert(Seq::new((j + 1) as nat, |k: int| k) =~= Seq::new(j as nat, |k: int| k).push(j as int));
            j = j + 1;
        }
        all
    }
}

proof fn lemma_indices_where(billing: Seq<Seq<char>>, n: int)
    requires
        0 <= n <= billing.len(),
    ensures
        forall|k: int| 0 <= k < indices_where(billing, n).len() ==> 0 <= #[trigger] indices_where(billing, n)[k] < n
            && billing[indices_where(billing, n)[k]] == "plan"@,
    decreases n,
{
    if n > 0 {
        lemma_indices_where(billing, n - 1);
        let p = indices_where(billing, n - 1);
        if billing[n - 1] == "plan"@ {
            assert forall|k: int| 0 <= k < p.push(n - 1).len() implies 0 <= #[trigger] p.push(n - 1)[k] < n
                && billing[p.push(n - 1)[k]] == "plan"@ by {
                if k < p.len() {
                    assert(p.push(n - 1)[k] == p[k]);
                }
            }
        }
    }
}

/// When some route is billed by plan, the choice draws from plan routes
/// only; otherwise from all routes.
pub proof fn lemma_pool_prefers_plan(billing: Seq<Seq<char>>)
    ensures
        forall|k: int| 0 <= k < route_pool(billing).len() ==> 0 <= #[trigger] route_pool(billing)[k] < billing.len(),
        (exists|i: int| 0 <= i < billing.len() && billing[i] == "plan"@) ==> forall|k: int|
            0 <= k < route_pool(billing).len() ==> billing[#[trigger] route_pool(billing)[k]] == "plan"@,
{
    lemma_indices_where(billing, billing.len() as int);
}

} // verus!
