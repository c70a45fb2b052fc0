use vyuber::broker::StreamManager;
use vyuber::supervisor::{
    Supervisor, SupervisorAction, SupervisorEvent, SupervisorState, BACKOFF_SECONDS,
};

const KEY: &str = "live";

fn serving(m: &StreamManager) -> bool {
    m.subscribe_with_headers(KEY).is_some()
}

#[test]
fn waits_for_a_key_before_listening() {
    let mut m = StreamManager::new(1935);
    let mut s = Supervisor::new();
    assert_eq!(s.current(), SupervisorState::AwaitingKey);
    assert_eq!(s.on_event(&mut m, KEY, SupervisorEvent::KeyChanged), SupervisorAction::AwaitKey);
    assert_eq!(s.current(), SupervisorState::AwaitingKey);
    m.set_active_key("");
    assert_eq!(s.on_event(&mut m, KEY, SupervisorEvent::KeyChanged), SupervisorAction::AwaitKey);
    m.set_active_key("abc");
    assert_eq!(
        s.on_event(&mut m, KEY, SupervisorEvent::KeyChanged),
        SupervisorAction::Listen(1935)
    );
    assert_eq!(s.current(), SupervisorState::Listening);
    assert!(!serving(&m));
}

#[test]
fn one_full_round() {
    let mut m = StreamManager::new(2935);
    m.set_active_key("abc");
    let mut s = Supervisor::new();
    assert_eq!(
        s.on_event(&mut m, KEY, SupervisorEvent::KeyChanged),
        SupervisorAction::Listen(2935)
    );
    assert_eq!(s.on_event(&mut m, KEY, SupervisorEvent::Accepted), SupervisorAction::RunSession);
    assert_eq!(s.current(), SupervisorState::Serving);
    assert!(serving(&m));
    assert_eq!(
        s.on_event(&mut m, KEY, SupervisorEvent::SessionEnded),
        SupervisorAction::Backoff(2)
    );
    assert_eq!(BACKOFF_SECONDS, 2);
    assert_eq!(s.current(), SupervisorState::BackingOff);
    assert!(!serving(&m));
    assert_eq!(
        s.on_event(&mut m, KEY, SupervisorEvent::BackoffElapsed),
        SupervisorAction::Listen(2935)
    );
    assert_eq!(s.current(), SupervisorState::Listening);
}

#[test]
fn back_off_ends_in_waiting_when_the_key_was_cleared() {
    let mut m = StreamManager::new(1935);
    m.set_active_key("abc");
    let mut s = Supervisor::new();
    s.on_event(&mut m, KEY, SupervisorEvent::KeyChanged);
    s.on_event(&mut m, KEY, SupervisorEvent::Accepted);
    s.on_event(&mut m, KEY, SupervisorEvent::SessionEnded);
    m.clear_active_key();
    assert_eq!(
        s.on_event(&mut m, KEY, SupervisorEvent::BackoffElapsed),
        SupervisorAction::AwaitKey
    );
    assert_eq!(s.current(), SupervisorState::AwaitingKey);
}

#[test]
fn failed_listen_backs_off_without_registering() {
    let mut m = StreamManager::new(1935);
    m.set_active_key("abc");
    let mut s = Supervisor::new();
    s.on_event(&mut m, KEY, SupervisorEvent::KeyChanged);
    assert_eq!(
        s.on_event(&mut m, KEY, SupervisorEvent::ListenFailed),
        SupervisorAction::Backoff(2)
    );
    assert_eq!(s.current(), SupervisorState::BackingOff);
    assert!(!serving(&m));
}

#[test]
fn reports_that_do_not_fit_change_nothing() {
    let mut m = StreamManager::new(1935);
    m.set_active_key("abc");
    let mut s = Supervisor::new();
    for e in [
        SupervisorEvent::Accepted,
        SupervisorEvent::ListenFailed,
        SupervisorEvent::SessionEnded,
        SupervisorEvent::BackoffElapsed,
    ] {
        assert_eq!(s.on_event(&mut m, KEY, e), SupervisorAction::Continue);
        assert_eq!(s.current(), SupervisorState::AwaitingKey);
    }
    s.on_event(&mut m, KEY, SupervisorEvent::KeyChanged);
    s.on_event(&mut m, KEY, SupervisorEvent::Accepted);
    m.append_data(KEY, &bytes::Bytes::from_static(b"x"));
    for e in [
        SupervisorEvent::KeyChanged,
        SupervisorEvent::Accepted,
        SupervisorEvent::ListenFailed,
        SupervisorEvent::BackoffElapsed,
    ] {
        assert_eq!(s.on_event(&mut m, KEY, e), SupervisorAction::Continue);
        assert_eq!(s.current(), SupervisorState::Serving);
        // A second publisher is never let in, and the stream is not reset.
        assert!(m.has_data_ready(KEY));
    }
}

#[test]
fn key_change_while_serving_does_not_register_again() {
    let mut m = StreamManager::new(1935);
    m.set_active_key("abc");
    let mut s = Supervisor::new();
    s.on_event(&mut m, KEY, SupervisorEvent::KeyChanged);
    s.on_event(&mut m, KEY, SupervisorEvent::Accepted);
    m.append_data(KEY, &bytes::Bytes::from_static(b"x"));
    m.set_active_key("def");
    assert_eq!(s.on_event(&mut m, KEY, SupervisorEvent::KeyChanged), SupervisorAction::Continue);
    assert!(m.has_data_ready(KEY));
}

#[test]
fn register_and_remove_take_turns_over_any_run_of_reports() {
    let events = [
        SupervisorEvent::KeyChanged,
        SupervisorEvent::Accepted,
        SupervisorEvent::ListenFailed,
        SupervisorEvent::SessionEnded,
        SupervisorEvent::BackoffElapsed,
    ];
    let mut seed = 12345u64;
    let mut m = StreamManager::new(1935);
    m.set_active_key("abc");
    let mut s = Supervisor::new();
    let mut registered = false;
    let mut rounds = 0;
    for _ in 0..5000 {
        seed = seed.wrapping_mul(6364136223846793005).wrapping_add(1442695040888963407);
        let e = events[((seed >> 33) % 5) as usize];
        let before = s.current();
        let action = s.on_event(&mut m, KEY, e);
        if action == SupervisorAction::RunSession {
            assert!(!registered);
            registered = true;
            rounds += 1;
        }
        if before == SupervisorState::Serving && s.current() != SupervisorState::Serving {
            assert!(registered);
            registered = false;
        }
        assert_eq!(serving(&m), registered);
        assert_eq!(s.current() == SupervisorState::Serving, registered);
    }
    assert!(rounds > 10);
}
