//! The life of one push session: its liveness probe and its one-time
//! removal from the hub.
use vstd::prelude::*;

verus! {

/// Interval, in milliseconds, between two liveness pings.
pub const PING_INTERVAL_MS: u64 = 5000;

/// Silence, in milliseconds since the client was last heard, after which the
/// session is given up.
pub const CLIENT_TIMEOUT_MS: u64 = 10000;

#[derive(Clone, Copy, Debug, PartialEq, Eq, Structural)]
pub enum SessionPhase {
    Connecting,
    Active,
    Closing,
    TimedOut,
    Closed,
}

/// What happens to a session. Instants are milliseconds on a monotonic clock.
#[derive(Clone, Copy, Debug, PartialEq, Eq, Structural)]
pub enum SessionEvent {
    /// The hub registered the session under this identifier.
    Registered(u64),
    /// The hub could not register the session.
    RegistrationFailed,
    /// The ping timer fired.
    Tick(u64),
    /// The client sent a ping.
    PingFrame(u64),
    /// The client answered a ping.
    PongFrame(u64),
    /// The client sent a close frame.
    CloseFrame,
    /// The transport ended without a close frame, or broke the protocol.
    TransportFailed,
    /// The session's task is shutting down.
    Stopped,
}

/// What the session's task must do in response to an event.
#[derive(Clone, Copy, Debug, PartialEq, Eq, Structural)]
pub enum SessionAction {
    Nothing,
    SendPing,
    SendPong,
    /// Answer the close frame and stop; remove the identifier, if any, from
    /// the hub.
    CloseAndStop(Option<u64>),
    /// Stop without a close frame; remove the identifier, if any, from the
    /// hub.
    Stop(Option<u64>),
}

#[derive(Clone, Copy, Debug, PartialEq, Eq, Structural)]
pub struct SessionLiveness {
    pub phase: SessionPhase,
    pub id: Option<u64>,
    pub last_heard: u64,
}

pub open spec fn is_terminal(p: SessionPhase) -> bool {
    p == SessionPhase::Closing || p == SessionPhase::TimedOut || p == SessionPhase::Closed
}

/// Silence since `last` has lasted longer than the timeout at `now`.
pub open spec fn timed_out(last: u64, now: u64) -> bool {
    now > last && now - last > CLIENT_TIMEOUT_MS
}

/// The identifier that an action removes from the hub, if any.
pub open spec fn deregisters(a: SessionAction) -> Option<u64> {
    match a {
        SessionAction::CloseAndStop(id) => id,
        SessionAction::Stop(id) => id,
        _ => None,
    }
}

/// The next state of a session and the action it takes on event `e`.
pub open spec fn step(s: SessionLiveness, e: SessionEvent) -> (SessionLiveness, SessionAction) {
    if is_terminal(s.phase) {
        match e {
            SessionEvent::Stopped => (SessionLiveness { phase: SessionPhase::Closed, ..s }, SessionAction::Nothing),
            _ => (s, SessionAction::Nothing),
        }
    } else {
        match e {
            SessionEvent::Registered(id) => if s.phase == SessionPhase::Connecting {
                (SessionLiveness { phase: SessionPhase::Active, id: Some(id), ..s }, SessionAction::Nothing)
            } else {
                (s, SessionAction::Nothing)
            },
            SessionEvent::RegistrationFailed => if s.phase == SessionPhase::Connecting {
                (SessionLiveness { phase: SessionPhase::Closing, ..s }, SessionAction::Stop(None))
            } else {
                (s, SessionAction::Nothing)
            },
            SessionEvent::Tick(now) => if timed_out(s.last_heard, now) {
                (SessionLiveness { phase: SessionPhase::TimedOut, ..s }, SessionAction::Stop(s.id))
            } else {
                (s, SessionAction::SendPing)
            },
            SessionEvent::PingFrame(now) => (SessionLiveness { last_heard: now, ..s }, SessionAction::SendPong),
            SessionEvent::PongFrame(now) => (SessionLiveness { last_heard: now, ..s }, SessionAction::Nothing),
            SessionEvent::CloseFrame => (SessionLiveness { phase: SessionPhase::Closing, ..s }, SessionAction::CloseAndStop(s.id)),
            SessionEvent::TransportFailed => (SessionLiveness { phase: SessionPhase::Closing, ..s }, SessionAction::Stop(s.id)),
            SessionEvent::Stopped => (SessionLiveness { phase: SessionPhase::Closed, ..s }, SessionAction::Stop(s.id)),
        }
    }
}

/// The actions a session takes on the events `es`, from state `s`.
pub open spec fn run(s: SessionLiveness, es: Seq<SessionEvent>) -> Seq<SessionAction>
    decreases es.len(),
{
    if es.len() == 0 {
        Seq::empty()
    } else {
        let (t, a) = step(s, es[0]);
        seq![a] + run(t, es.drop_first())
    }
}

/// The number of actions in `acts` that remove a session from the hub.
pub open spec fn count_deregistrations(acts: Seq<SessionAction>) -> nat
    decreases acts.len(),
{
    if acts.len() == 0 {
        0
    } else {
        (if deregisters(acts[0]) is Some { 1nat } else { 0nat }) + count_deregistrations(acts.drop_first())
    }
}

impl SessionLiveness {
    /// A session that has just opened at `now` and waits for registration.
    pub fn new(now: u64) -> (r: Self)
        ensures
            r == (SessionLiveness { phase: SessionPhase::Connecting, id: None, last_heard: now }),
    {
        SessionLiveness { phase: SessionPhase::Connecting, id: None, last_heard: now }
    }

    /// Moves the session on by event `e` and returns the action to take.
    pub fn handle(&mut self, e: SessionEvent) -> (r: SessionAction)
        ensures
            (*final(self), r) == step(*old(self), e),
    {
        let terminal = match self.phase {
            SessionPhase::Closing | SessionPhase::TimedOut | SessionPhase::Closed => true,
            _ => false,
        };
        if terminal {
            if let SessionEvent::Stopped = e {
                self.phase = SessionPhase::Closed;
            }
            return SessionAction::Nothing;
        }
        match e {
            SessionEvent::Registered(id) => {
                if let SessionPhase::Connecting = self.phase {
                    self.phase = SessionPhase::Active;
                    self.id = Some(id);
                }
                SessionAction::Nothing
            },
            SessionEvent::RegistrationFailed => {
                if let SessionPhase::Connecting = self.phase {
                    self.phase = SessionPhase::Closing;
                    SessionAction::Stop(None)
                } else {
                    SessionAction::Nothing
                }
            },
            SessionEvent::Tick(now) => {
                if now > self.last_heard && now - self.last_heard > CLIENT_TIMEOUT_MS {
                    self.phase = SessionPhase::TimedOut;
                    SessionAction::Stop(self.id)
                } else {
                    SessionAction::SendPing
                }
            },
            SessionEvent::PingFrame(now) => {
                self.last_heard = now;
                SessionAction::SendPong
            },
            SessionEvent::PongFrame(now) => {
                self.last_heard = now;
                SessionAction::Nothing
            },
            SessionEvent::CloseFrame => {
                self.phase = SessionPhase::Closing;
                SessionAction::CloseAndStop(self.id)
            },
            SessionEvent::TransportFailed => {
                self.phase = SessionPhase::Closing;
                SessionAction::Stop(self.id)
            },
            SessionEvent::Stopped => {
                self.phase = SessionPhase::Closed;
                SessionAction::Stop(self.id)
            },
        }
    }
}

/// Once a session has ended, no event removes it from the hub again, and it
/// stays ended.
pub proof fn lemma_ended_session_is_silent(s: SessionLiveness, es: Seq<SessionEvent>)
    requires
        is_terminal(s.phase),
    ensures
        count_deregistrations(run(s, es)) == 0,
    decreases es.len(),
{
    if es.len() > 0 {
        let (t, a) = step(s, es[0]);
        lemma_ended_session_is_silent(t, es.drop_first());
        assert(run(s, es).drop_first() =~= run(t, es.drop_first()));
    }
}

/// Whatever events arrive, a session is removed from the hub at most once.
pub proof fn lemma_deregistered_at_most_once(s: SessionLiveness, es: Seq<SessionEvent>)
    ensures
        count_deregistrations(run(s, es)) <= 1,
    decreases es.len(),
{
    if es.len() > 0 {
        let (t, a) = step(s, es[0]);
        assert(run(s, es).drop_first() =~= run(t, es.drop_first()));
        if deregisters(a) is Some {
            assert(is_terminal(t.phase));
            lemma_ended_session_is_silent(t, es.drop_first());
        } else {
            lemma_deregistered_at_most_once(t, es.drop_first());
        }
    }
}

/// A registered session whose transport fails, or whose client stays silent
/// for longer than the timeout until a ping tick, is removed from the hub by
/// that very event.
pub proof fn lemma_dead_transport_deregisters(s: SessionLiveness, id: u64, now: u64)
    requires
        s.phase == SessionPhase::Active,
        s.id == Some(id),
    ensures
        deregisters(step(s, SessionEvent::TransportFailed).1) == Some(id),
        timed_out(s.last_heard, now) ==> deregisters(step(s, SessionEvent::Tick(now)).1) == Some(id),
        timed_out(s.last_heard, now) ==> step(s, SessionEvent::Tick(now)).0.phase == SessionPhase::TimedOut,
{
}

} // verus!
