//! Broadcast hub: the set of live push sessions, each with the outbox that
//! carries messages to its client.
use vstd::prelude::*;

verus! {

/// Relies on rand's `random`: a value drawn from the thread-local generator.
/// Nothing is promised of it.
pub assume_specification<T>[ rand::random::<T> ]() -> (r: T)
    where
        rand::distributions::Standard: rand::distributions::Distribution<T>,
;

/// The sending end of one push session. Handing a message over must not
/// block; a handoff to a client that has gone away is dropped.
pub trait Outbox {
    fn deliver(&self, message: &str);
}

struct Session<R> {
    id: u64,
    outbox: R,
}

/// Sessions keyed by an identifier that the hub assigns.
pub struct BroadcastHub<R> {
    sessions: Vec<Session<R>>,
    map: Ghost<Map<u64, R>>,
    sent: Ghost<Seq<(u64, Seq<char>)>>,
}

/// `added` hands `message` to each session of `ids` exactly once, and to no
/// other session.
pub open spec fn hands_each_once(added: Seq<(u64, Seq<char>)>, ids: Set<u64>, message: Seq<char>) -> bool {
    &&& forall|j: int| 0 <= j < added.len() ==> ids.contains((#[trigger] added[j]).0) && added[j].1 == message
    &&& forall|k: u64| #[trigger] ids.contains(k) ==> exists|j: int| 0 <= j < added.len() && added[j].0 == k
    &&& forall|a: int, b: int| 0 <= a < added.len() && 0 <= b < added.len() && a != b
            ==> (#[trigger] added[a]).0 != (#[trigger] added[b]).0
}

impl<R: Outbox> BroadcastHub<R> {
    pub closed spec fn view(&self) -> Map<u64, R> {
        self.map@
    }

    /// Every handoff made so far, in order: the session it went to and the
    /// message.
    pub closed spec fn handoffs(&self) -> Seq<(u64, Seq<char>)> {
        self.sent@
    }

    pub closed spec fn wf(&self) -> bool {
        let e = self.sessions@;
        let m = self.map@;
        &&& m.dom().finite()
        &&& m.len() == e.len()
        &&& forall|i: int| #![trigger e[i]] 0 <= i < e.len()
                ==> m.contains_key(e[i].id) && m[e[i].id] == e[i].outbox
        &&& forall|k: u64| #[trigger] m.contains_key(k)
                ==> exists|i: int| 0 <= i < e.len() && e[i].id == k
        &&& forall|i: int, j: int| 0 <= i < e.len() && 0 <= j < e.len() && i != j
                ==> (#[trigger] e[i]).id != (#[trigger] e[j]).id
    }

    /// A well-formed value holds finitely many entries.
    pub proof fn lemma_view_finite(&self)
        requires
            self.wf(),
        ensures
            self@.dom().finite(),
    {
    }

    /// A hub with no session.
    pub fn new() -> (r: Self)
        ensures
            r.wf(),
            r@ == Map::<u64, R>::empty(),
            r@.dom().finite(),
            r.handoffs() == Seq::<(u64, Seq<char>)>::empty(),
    {
        BroadcastHub { sessions: Vec::new(), map: Ghost(Map::empty()), sent: Ghost(Seq::empty()) }
    }

    /// The number of sessions connected.
    pub fn len(&self) -> (r: usize)
        requires
            self.wf(),
        ensures
            r == self@.len(),
            self@.dom().finite(),
    {
        self.sessions.len()
    }

    /// Whether a session with identifier `id` is connected.
    pub fn contains(&self, id: u64) -> (r: bool)
        requires
            self.wf(),
        ensures
            r == self@.contains_key(id),
    {
        match self.find(id) {
            Some(_) => true,
            None => false,
        }
    }

    fn find(&self, id: u64) -> (r: Option<usize>)
        requires
            self.wf(),
        ensures
            match r {
                Some(i) => i < self.sessions@.len() && self.sessions@[i as int].id == id,
                None => !self@.contains_key(id),
            },
    {
        let mut i: usize = 0;
        while i < self.sessions.len()
            invariant
                self.wf(),
                i <= self.sessions@.len(),
                forall|j: int| 0 <= j < i ==> (#[trigger] self.sessions@[j]).id != id,
            decreases self.sessions@.len() - i,
        {
            if self.sessions[i].id == id {
                return Some(i);
            }
            i = i + 1;
        }
        None
    }

    /// Registers `outbox` under `id`. A session already under `id` is
    /// replaced.
    pub fn connect_with_id(&mut self, id: u64, outbox: R)
        requires
            old(self).wf(),
        ensures
            final(self).wf(),
            final(self)@.dom().finite(),
            final(self)@ == old(self)@.insert(id, outbox),
            final(self).handoffs() == old(self).handoffs(),
    {
        let ghost m0 = self.map@;
        let ghost o = outbox;
        self.disconnect(id);
        let ghost before = self.sessions@;
        self.sessions.push(Session { id, outbox });
        proof {
            let e = self.sessions@;
            assert(!self.map@.contains_key(id));
            self.map@ = self.map@.insert(id, o);
            assert(self.map@.len() == e.len());
            assert forall|j: int| #![trigger e[j]] 0 <= j < e.len()
                implies self.map@.contains_key(e[j].id) && self.map@[e[j].id] == e[j].outbox by {
                if j < before.len() {
                    assert(before[j] == e[j]);
                }
            }
            assert forall|a: int, b: int| 0 <= a < e.len() && 0 <= b < e.len() && a != b
                implies (#[trigger] e[a]).id != (#[trigger] e[b]).id by {
                if a < before.len() {
                    assert(before[a] == e[a]);
                }
                if b < before.len() {
                    assert(before[b] == e[b]);
                }
            }
            assert forall|k: u64| #[trigger] self.map@.contains_key(k)
                implies exists|j: int| 0 <= j < e.len() && e[j].id == k by {
                if k != id {
                    let j = choose|j: int| 0 <= j < before.len() && before[j].id == k;
                    assert(e[j].id == k);
                } else {
                    assert(e[before.len() as int].id == k);
                }
            }
            assert(self.map@ =~= m0.insert(id, o));
        }
    }

    /// Registers `outbox` under a freshly drawn random identifier, which is
    /// returned.
    pub fn connect(&mut self, outbox: R) -> (id: u64)
        requires
            old(self).wf(),
        ensures
            final(self).wf(),
            final(self)@.dom().finite(),
            final(self)@ == old(self)@.insert(id, outbox),
            final(self).handoffs() == old(self).handoffs(),
    {
        let id: u64 = rand::random::<u64>();
        self.connect_with_id(id, outbox);
        id
    }

    /// Removes the session under `id`; nothing happens when there is none.
    pub fn disconnect(&mut self, id: u64)
        requires
            old(self).wf(),
        ensures
            final(self).wf(),
            final(self)@.dom().finite(),
            final(self)@ == old(self)@.remove(id),
            final(self).handoffs() == old(self).handoffs(),
    {
        if let Some(i) = self.find(id) {
            let ghost before = self.sessions@;
            let _ = self.sessions.swap_remove(i);
            proof {
                let e = self.sessions@;
                self.map@ = self.map@.remove(id);
                assert forall|j: int| #![trigger e[j]] 0 <= j < e.len()
                    implies self.map@.contains_key(e[j].id) && self.map@[e[j].id] == e[j].outbox by {
                    if j == i {
                        assert(e[j] == before[before.len() - 1]);
                        assert(before[i as int].id != before[before.len() - 1].id);
                    } else {
                        assert(e[j] == before[j]);
                        assert(before[i as int].id != before[j].id);
                    }
                }
                assert forall|a: int, b: int| 0 <= a < e.len() && 0 <= b < e.len() && a != b
                    implies (#[trigger] e[a]).id != (#[trigger] e[b]).id by {
                    let a2 = if a == i { before.len() - 1 } else { a };
                    let b2 = if b == i { before.len() - 1 } else { b };
                    assert(e[a] == before[a2]);
                    assert(e[b] == before[b2]);
                }
                assert forall|k: u64| #[trigger] self.map@.contains_key(k)
                    implies exists|j: int| 0 <= j < e.len() && e[j].id == k by {
                    let j = choose|j: int| 0 <= j < before.len() && before[j].id == k;
                    if j == before.len() - 1 {
                        assert(e[i as int].id == k);
                    } else {
                        assert(j != i);
                        assert(e[j].id == k);
                    }
                }
                assert(self.map@.dom().finite());
                assert(self.map@.len() == e.len());
                assert(self.sessions@ == e);
                assert(self.wf());
            }
        } else {
            assert(self.map@ =~= self.map@.remove(id));
        }
    }

    /// Hands `message` to the outbox of every connected session, once each,
    /// and returns the number of handoffs made. The handoffs are recorded
    /// after all earlier ones, so each session receives messages in the
    /// order they were broadcast.
    pub fn broadcast(&mut self, message: &str) -> (attempts: usize)
        requires
            old(self).wf(),
        ensures
            final(self).wf(),
            final(self)@ == old(self)@,
            attempts == old(self)@.len(),
            final(self).handoffs().len() == old(self).handoffs().len() + attempts,
            final(self).handoffs().subrange(0, old(self).handoffs().len() as int) == old(self).handoffs(),
            hands_each_once(
                final(self).handoffs().subrange(old(self).handoffs().len() as int, final(self).handoffs().len() as int),
                old(self)@.dom(),
                message@,
            ),
    {
        let ghost s0 = self.sent@;
        let ghost e = self.sessions@;
        let ghost m = self.map@;
        let mut i: usize = 0;
        while i < self.sessions.len()
            invariant
                self.sessions@ == e,
                self.map@ == m,
                old(self).sessions@ == e,
                old(self).map@ == m,
                old(self).sent@ == s0,
                old(self).wf(),
                i <= e.len(),
                self.sent@ == s0 + Seq::new(i as nat, |j: int| (e[j].id, message@)),
            decreases e.len() - i,
        {
            self.sessions[i].outbox.deliver(message);
            proof {
                let before = Seq::new(i as nat, |j: int| (e[j].id, message@));
                let after = Seq::new((i + 1) as nat, |j: int| (e[j].id, message@));
                assert(after =~= before.push((e[i as int].id, message@)));
                self.sent@ = self.sent@.push((e[i as int].id, message@));
                assert(self.sent@ =~= s0 + after);
            }
            i = i + 1;
        }
        proof {
            let added = Seq::new(e.len(), |j: int| (e[j].id, message@));
            assert(self.sent@.subrange(0, s0.len() as int) =~= s0);
            assert(self.sent@.subrange(s0.len() as int, self.sent@.len() as int) =~= added);
            assert forall|k: u64| #[trigger] m.dom().contains(k)
                implies exists|j: int| 0 <= j < added.len() && added[j].0 == k by {
                assert(m.contains_key(k));
                let j = choose|j: int| 0 <= j < e.len() && e[j].id == k;
                assert(added[j].0 == k);
            }
            assert forall|j: int| 0 <= j < added.len()
                implies m.dom().contains((#[trigger] added[j]).0) && added[j].1 == message@ by {
                assert(e[j] == e[j]);
            }
            assert forall|a: int, b: int| 0 <= a < added.len() && 0 <= b < added.len() && a != b
                implies (#[trigger] added[a]).0 != (#[trigger] added[b]).0 by {
                assert(e[a].id != e[b].id);
            }
        }
        i
    }
}

/// Disconnecting a connected session leaves one session fewer, so the next
/// broadcast makes one handoff fewer; disconnecting an unknown session
/// changes nothing.
pub proof fn lemma_disconnect_one_fewer<R>(m: Map<u64, R>, id: u64)
    requires
        m.dom().finite(),
    ensures
        m.contains_key(id) ==> m.remove(id).len() == m.len() - 1,
        !m.contains_key(id) ==> m.remove(id) == m,
{
    if !m.contains_key(id) {
        assert(m.remove(id) =~= m);
    }
}

} // verus!
