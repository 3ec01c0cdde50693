//! The presence poller's decision: announce the viewer count only when it
//! changes.
use vstd::prelude::*;

verus! {

/// How often, in milliseconds, the poller samples the presence registry.
pub const POLL_PERIOD_MS: u64 = 2000;

/// The last viewer count the poller has seen, if any.
pub struct PresencePoller {
    last: Option<usize>,
}

impl PresencePoller {
    pub closed spec fn view(&self) -> Option<usize> {
        self.last
    }

    /// A poller that has seen no count yet.
    pub fn new() -> (r: Self)
        ensures
            r@ is None,
    {
        PresencePoller { last: None }
    }

    /// The last count seen, if any.
    pub fn last_count(&self) -> (r: Option<usize>)
        ensures
            r == self@,
    {
        self.last
    }

    /// Takes the count sampled on one tick. Returns the count to announce:
    /// the sampled count when it differs from the last one seen, and `None`
    /// when it does not or when it is the first count seen.
    pub fn observe(&mut self, count: usize) -> (r: Option<usize>)
        ensures
            final(self)@ == Some(count),
            r == (match old(self)@ {
                Some(last) => if count != last { Some(count) } else { None::<usize> },
                None => None::<usize>,
            }),
    {
        let previous = self.last;
        self.last = Some(count);
        match previous {
            Some(last) => if count != last { Some(count) } else { None },
            None => None,
        }
    }
}

} // verus!
