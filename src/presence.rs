//! Presence registry: which viewers have been heard from recently.
use vstd::prelude::*;

verus! {

/// How long, in milliseconds, a viewer counts as present after its last
/// heartbeat.
pub const LIVENESS_WINDOW_MS: i64 = 15000;

/// A viewer last seen at `last_seen` is still present at `now`.
pub open spec fn is_live(last_seen: int, now: int) -> bool {
    now - last_seen < LIVENESS_WINDOW_MS
}

/// What remains of the presence map `m` once every stale entry is removed.
pub open spec fn pruned(m: Map<Seq<char>, int>, now: int) -> Map<Seq<char>, int> {
    Map::new(|k: Seq<char>| m.contains_key(k) && is_live(m[k], now), |k: Seq<char>| m[k])
}

/// The presence map after heartbeats `ts`, each a viewer id and the instant
/// it was received, are recorded in order on `m`.
pub open spec fn after_touches(m: Map<Seq<char>, int>, ts: Seq<(Seq<char>, int)>) -> Map<Seq<char>, int>
    decreases ts.len(),
{
    if ts.len() == 0 {
        m
    } else {
        after_touches(m, ts.drop_last()).insert(ts.last().0, ts.last().1)
    }
}

proof fn lemma_touches_bound(m: Map<Seq<char>, int>, ts: Seq<(Seq<char>, int)>, id: Seq<char>, t: int)
    requires
        m.contains_key(id) ==> m[id] <= t,
        forall|i: int| 0 <= i < ts.len() && (#[trigger] ts[i]).0 == id ==> ts[i].1 <= t,
    ensures
        after_touches(m, ts).contains_key(id) ==> after_touches(m, ts)[id] <= t,
    decreases ts.len(),
{
    if ts.len() > 0 {
        let p = ts.drop_last();
        assert forall|i: int| 0 <= i < p.len() && (#[trigger] p[i]).0 == id implies p[i].1 <= t by {
            assert(p[i] == ts[i]);
        }
        lemma_touches_bound(m, p, id, t);
        assert(ts.last() == ts[ts.len() - 1]);
    }
}

/// A viewer none of whose heartbeats is later than `t` is gone from the
/// registry once a prune runs a full liveness window or more after `t`,
/// whatever heartbeats other viewers sent meanwhile.
pub proof fn lemma_stale_viewer_pruned(
    m: Map<Seq<char>, int>,
    ts: Seq<(Seq<char>, int)>,
    id: Seq<char>,
    t: int,
    now: int,
)
    requires
        m.contains_key(id) ==> m[id] <= t,
        forall|i: int| 0 <= i < ts.len() && (#[trigger] ts[i]).0 == id ==> ts[i].1 <= t,
        now - t >= LIVENESS_WINDOW_MS,
    ensures
        !pruned(after_touches(m, ts), now).contains_key(id),
{
    lemma_touches_bound(m, ts, id, t);
}

/// A prune never leaves more viewers than were recorded, and a later prune
/// of the same map leaves no more viewers than an earlier one.
pub proof fn lemma_later_prune_keeps_fewer(m: Map<Seq<char>, int>, now1: int, now2: int)
    requires
        m.dom().finite(),
        now1 <= now2,
    ensures
        pruned(m, now1).dom().finite(),
        pruned(m, now2).dom().finite(),
        pruned(m, now2).len() <= pruned(m, now1).len(),
        pruned(m, now1).len() <= m.len(),
{
    vstd::set_lib::lemma_len_subset(pruned(m, now1).dom(), m.dom());
    vstd::set_lib::lemma_len_subset(pruned(m, now2).dom(), pruned(m, now1).dom());
}

struct Entry {
    id: String,
    last_seen: i64,
}

/// Map from viewer id to the instant (milliseconds since the Unix epoch) it
/// was last heard from. A viewer absent from the map is not watching.
pub struct PresenceRegistry {
    entries: Vec<Entry>,
    map: Ghost<Map<Seq<char>, int>>,
}

/// Relies on chrono's `Utc::now` and `DateTime::timestamp_millis`: the
/// current wall-clock time in milliseconds since the Unix epoch. Nothing is
/// promised of the value. `Utc::now` panics only when the system clock reads
/// a time before the epoch.
#[verifier::external_body]
fn now_millis() -> (r: i64) {
    chrono::Utc::now().timestamp_millis()
}

impl PresenceRegistry {
    pub closed spec fn view(&self) -> Map<Seq<char>, int> {
        self.map@
    }

    pub closed spec fn wf(&self) -> bool {
        let e = self.entries@;
        let m = self.map@;
        &&& m.dom().finite()
        &&& m.len() == e.len()
        &&& forall|i: int| #![trigger e[i]] 0 <= i < e.len()
                ==> m.contains_key(e[i].id@) && m[e[i].id@] == e[i].last_seen as int
        &&& forall|k: Seq<char>| #[trigger] m.contains_key(k)
                ==> exists|i: int| 0 <= i < e.len() && e[i].id@ == k
        &&& forall|i: int, j: int| 0 <= i < e.len() && 0 <= j < e.len() && i != j
                ==> (#[trigger] e[i]).id@ != (#[trigger] e[j]).id@
    }

    /// A well-formed value holds finitely many entries.
    pub proof fn lemma_view_finite(&self)
        requires
            self.wf(),
        ensures
            self@.dom().finite(),
    {
    }

    /// An empty registry.
    pub fn new() -> (r: Self)
        ensures
            r.wf(),
            r@ == Map::<Seq<char>, int>::empty(),
            r@.dom().finite(),
    {
        PresenceRegistry { entries: Vec::new(), map: Ghost(Map::empty()) }
    }

    /// The number of viewers recorded, stale ones included.
    pub fn len(&self) -> (r: usize)
        requires
            self.wf(),
        ensures
            r == self@.len(),
            self@.dom().finite(),
    {
        self.entries.len()
    }

    /// The position of `id` among the entries, if it is recorded.
    fn find(&self, id: &String) -> (r: Option<usize>)
        requires
            self.wf(),
        ensures
            match r {
                Some(i) => i < self.entries@.len() && self.entries@[i as int].id@ == id@,
                None => !self@.contains_key(id@),
            },
    {
        let mut i: usize = 0;
        while i < self.entries.len()
            invariant
                self.wf(),
                i <= self.entries@.len(),
                forall|j: int| 0 <= j < i ==> (#[trigger] self.entries@[j]).id@ != id@,
            decreases self.entries@.len() - i,
        {
            if self.entries[i].id == *id {
                return Some(i);
            }
            i = i + 1;
        }
        None
    }

    /// Records that `id` was heard from at `now`, replacing any earlier
    /// instant recorded for it.
    pub fn touch_at(&mut self, id: String, now: i64)
        requires
            old(self).wf(),
        ensures
            final(self).wf(),
            final(self)@.dom().finite(),
            final(self)@ == old(self)@.insert(id@, now as int),
    {
        match self.find(&id) {
            Some(i) => {
                let ghost before = self.entries@;
                self.entries.set(i, Entry { id, last_seen: now });
                proof {
                    let e = self.entries@;
                    let k = e[i as int].id@;
                    self.map@ = self.map@.insert(k, now as int);
                    assert(old(self).map@.contains_key(k));
                    assert(self.map@.dom() =~= old(self).map@.dom());
                    assert(self.map@.len() == e.len());
                    assert forall|j: int| #![trigger e[j]] 0 <= j < e.len()
                        implies self.map@.contains_key(e[j].id@) && self.map@[e[j].id@] == e[j].last_seen as int by {
                        if j != i {
                            assert(before[j] == e[j]);
                        }
                    }
                    assert forall|a: int, b: int| 0 <= a < e.len() && 0 <= b < e.len() && a != b
                        implies (#[trigger] e[a]).id@ != (#[trigger] e[b]).id@ by {
                        if a != i {
                            assert(before[a] == e[a]);
                        }
                        if b != i {
                            assert(before[b] == e[b]);
                        }
                        assert(before[a].id@ != before[b].id@);
                    }
                    assert forall|k2: Seq<char>| #[trigger] self.map@.contains_key(k2)
                        implies exists|j: int| 0 <= j < e.len() && e[j].id@ == k2 by {
                        let j = choose|j: int| 0 <= j < before.len() && before[j].id@ == k2;
                        assert(e[j].id@ == k2);
                    }
                    assert(self.map@.dom().finite());
                    assert(self.map@.len() == self.entries@.len());
                    assert(self.wf());
                }
            },
            None => {
                let ghost k = id@;
                let ghost before = self.entries@;
                self.entries.push(Entry { id, last_seen: now });
                proof {
                    let e = self.entries@;
                    self.map@ = self.map@.insert(k, now as int);
                    assert(self.map@.len() == e.len());
                    assert forall|j: int| #![trigger e[j]] 0 <= j < e.len()
                        implies self.map@.contains_key(e[j].id@) && self.map@[e[j].id@] == e[j].last_seen as int by {
                        if j < before.len() {
                            assert(before[j] == e[j]);
                        }
                    }
                    assert forall|a: int, b: int| 0 <= a < e.len() && 0 <= b < e.len() && a != b
                        implies (#[trigger] e[a]).id@ != (#[trigger] e[b]).id@ by {
                        if a < before.len() {
                            assert(before[a] == e[a]);
                            assert(old(self).map@.contains_key(e[a].id@));
                        }
                        if b < before.len() {
                            assert(before[b] == e[b]);
                            assert(old(self).map@.contains_key(e[b].id@));
                        }
                    }
                    assert forall|k2: Seq<char>| #[trigger] self.map@.contains_key(k2)
                        implies exists|j: int| 0 <= j < e.len() && e[j].id@ == k2 by {
                        if k2 != k {
                            let j = choose|j: int| 0 <= j < before.len() && before[j].id@ == k2;
                            assert(e[j].id@ == k2);
                        } else {
                            assert(e[before.len() as int].id@ == k2);
                        }
                    }
                    assert(self.wf());
                }
            },
        }
    }

    /// Removes every viewer that is stale at `now`, and returns how many
    /// remain. The removal and the count form one step on the registry.
    pub fn prune_and_count_at(&mut self, now: i64) -> (r: usize)
        requires
            old(self).wf(),
        ensures
            final(self).wf(),
            final(self)@.dom().finite(),
            final(self)@ == pruned(old(self)@, now as int),
            r == final(self)@.len(),
    {
        let ghost om = self.map@;
        let ghost oe = self.entries@;
        let mut kept: Vec<Entry> = Vec::new();
        let ghost mut nm: Map<Seq<char>, int> = Map::empty();
        let mut i: usize = 0;
        while i < self.entries.len()
            invariant
                self.wf(),
                self.map@ == om,
                self.entries@ == oe,
                i <= oe.len(),
                nm.dom().finite(),
                nm.len() == kept@.len(),
                forall|j: int| #![trigger kept@[j]] 0 <= j < kept@.len()
                    ==> nm.contains_key(kept@[j].id@) && nm[kept@[j].id@] == kept@[j].last_seen as int,
                forall|k: Seq<char>| #[trigger] nm.contains_key(k)
                    ==> exists|j: int| 0 <= j < kept@.len() && kept@[j].id@ == k,
                forall|a: int, b: int| 0 <= a < kept@.len() && 0 <= b < kept@.len() && a != b
                    ==> (#[trigger] kept@[a]).id@ != (#[trigger] kept@[b]).id@,
                forall|k: Seq<char>| #[trigger] nm.contains_key(k) <==> (exists|j: int|
                    0 <= j < i && oe[j].id@ == k && is_live(oe[j].last_seen as int, now as int)),
                forall|k: Seq<char>| nm.contains_key(k) ==> #[trigger] nm[k] == om[k],
            decreases oe.len() - i,
        {
            let last_seen = self.entries[i].last_seen;
            let ghost k = oe[i as int].id@;
            assert(om.contains_key(k));
            assert(!nm.contains_key(k)) by {
                if nm.contains_key(k) {
                    let j = choose|j: int| 0 <= j < i && oe[j].id@ == k && is_live(oe[j].last_seen as int, now as int);
                    assert(oe[j].id@ != oe[i as int].id@);
                }
            }
            if (now as i128) - (last_seen as i128) < LIVENESS_WINDOW_MS as i128 {
                let id = self.entries[i].id.clone();
                let ghost before = kept@;
                kept.push(Entry { id, last_seen });
                proof {
                    nm = nm.insert(k, last_seen as int);
                    let e = kept@;
                    assert forall|j: int| #![trigger e[j]] 0 <= j < e.len()
                        implies nm.contains_key(e[j].id@) && nm[e[j].id@] == e[j].last_seen as int by {
                        if j < before.len() {
                            assert(before[j] == e[j]);
                        }
                    }
                    assert forall|a: int, b: int| 0 <= a < e.len() && 0 <= b < e.len() && a != b
                        implies (#[trigger] e[a]).id@ != (#[trigger] e[b]).id@ by {
                        if a < before.len() {
                            assert(before[a] == e[a]);
                        }
                        if b < before.len() {
                            assert(before[b] == e[b]);
                        }
                    }
                    assert forall|k2: Seq<char>| #[trigger] nm.contains_key(k2)
                        implies exists|j: int| 0 <= j < e.len() && e[j].id@ == k2 by {
                        if k2 != k {
                            let j = choose|j: int| 0 <= j < before.len() && before[j].id@ == k2;
                            assert(e[j].id@ == k2);
                        } else {
                            assert(e[before.len() as int].id@ == k2);
                        }
                    }
                    assert forall|k2: Seq<char>| #[trigger] nm.contains_key(k2) <==> (exists|j: int|
                        0 <= j < i + 1 && oe[j].id@ == k2 && is_live(oe[j].last_seen as int, now as int)) by {
                        if k2 == k {
                            assert(oe[i as int].id@ == k2);
                        }
                    }
                }
            } else {
                assert forall|k2: Seq<char>| #[trigger] nm.contains_key(k2) <==> (exists|j: int|
                    0 <= j < i + 1 && oe[j].id@ == k2 && is_live(oe[j].last_seen as int, now as int)) by {
                    if exists|j: int| 0 <= j < i + 1 && oe[j].id@ == k2 && is_live(oe[j].last_seen as int, now as int) {
                        let j = choose|j: int| 0 <= j < i + 1 && oe[j].id@ == k2 && is_live(oe[j].last_seen as int, now as int);
                        assert(j != i);
                    }
                }
            }
            i = i + 1;
        }
        proof {
            assert forall|k: Seq<char>| nm.contains_key(k) <==> #[trigger] pruned(om, now as int).contains_key(k) by {
                if om.contains_key(k) && is_live(om[k], now as int) {
                    let j = choose|j: int| 0 <= j < oe.len() && oe[j].id@ == k;
                    assert(oe[j].id@ == k && is_live(oe[j].last_seen as int, now as int));
                }
                if nm.contains_key(k) {
                    let j = choose|j: int| 0 <= j < oe.len() && oe[j].id@ == k && is_live(oe[j].last_seen as int, now as int);
                    assert(om[k] == oe[j].last_seen as int);
                }
            }
            assert(nm =~= pruned(om, now as int));
        }
        self.entries = kept;
        self.map = Ghost(nm);
        self.entries.len()
    }

    /// Records that `id` is heard from now.
    pub fn touch(&mut self, id: String)
        requires
            old(self).wf(),
        ensures
            final(self).wf(),
            final(self)@.dom().finite(),
            exists|t: int| final(self)@ == old(self)@.insert(id@, t),
    {
        let now = now_millis();
        self.touch_at(id, now);
    }

    /// Removes every viewer that is stale now, and returns how many remain.
    pub fn prune_and_count(&mut self) -> (r: usize)
        requires
            old(self).wf(),
        ensures
            final(self).wf(),
            final(self)@.dom().finite(),
            exists|t: int| final(self)@ == pruned(old(self)@, t),
            r == final(self)@.len(),
    {
        let now = now_millis();
        self.prune_and_count_at(now)
    }
}

} // verus!
