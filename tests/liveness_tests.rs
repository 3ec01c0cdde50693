use viewer_stream::liveness::{
    SessionAction, SessionEvent, SessionLiveness, SessionPhase, CLIENT_TIMEOUT_MS, PING_INTERVAL_MS,
};

fn active(id: u64, now: u64) -> SessionLiveness {
    let mut s = SessionLiveness::new(now);
    assert_eq!(s.handle(SessionEvent::Registered(id)), SessionAction::Nothing);
    assert_eq!(s.phase, SessionPhase::Active);
    s
}

#[test]
fn pings_until_silence_exceeds_timeout() {
    let mut s = active(7, 0);
    assert_eq!(s.handle(SessionEvent::Tick(PING_INTERVAL_MS)), SessionAction::SendPing);
    assert_eq!(s.handle(SessionEvent::Tick(2 * PING_INTERVAL_MS)), SessionAction::SendPing);
    assert_eq!(s.handle(SessionEvent::Tick(3 * PING_INTERVAL_MS)), SessionAction::Stop(Some(7)));
    assert_eq!(s.phase, SessionPhase::TimedOut);
    assert_eq!(s.handle(SessionEvent::Stopped), SessionAction::Nothing);
    assert_eq!(s.phase, SessionPhase::Closed);
}

#[test]
fn pong_keeps_session_alive() {
    let mut s = active(1, 0);
    assert_eq!(s.handle(SessionEvent::PongFrame(9_000)), SessionAction::Nothing);
    assert_eq!(s.handle(SessionEvent::Tick(9_000 + CLIENT_TIMEOUT_MS)), SessionAction::SendPing);
    assert_eq!(s.handle(SessionEvent::PingFrame(20_000)), SessionAction::SendPong);
    assert_eq!(s.last_heard, 20_000);
}

#[test]
fn silent_transport_loss_deregisters_once() {
    let mut s = active(3, 0);
    assert_eq!(s.handle(SessionEvent::TransportFailed), SessionAction::Stop(Some(3)));
    assert_eq!(s.handle(SessionEvent::Tick(60_000)), SessionAction::Nothing);
    assert_eq!(s.handle(SessionEvent::Stopped), SessionAction::Nothing);
    assert_eq!(s.phase, SessionPhase::Closed);
}

#[test]
fn close_frame_answers_and_deregisters() {
    let mut s = active(4, 0);
    assert_eq!(s.handle(SessionEvent::CloseFrame), SessionAction::CloseAndStop(Some(4)));
    assert_eq!(s.phase, SessionPhase::Closing);
    assert_eq!(s.handle(SessionEvent::CloseFrame), SessionAction::Nothing);
}

#[test]
fn stopping_while_active_deregisters() {
    let mut s = active(5, 0);
    assert_eq!(s.handle(SessionEvent::Stopped), SessionAction::Stop(Some(5)));
    assert_eq!(s.phase, SessionPhase::Closed);
}

#[test]
fn failed_registration_stops_without_id() {
    let mut s = SessionLiveness::new(0);
    assert_eq!(s.handle(SessionEvent::RegistrationFailed), SessionAction::Stop(None));
    assert_eq!(s.phase, SessionPhase::Closing);
}
