use ensemble::bridge::config::PeerConfig;
use ensemble::bridge::peers::{
    backoff_delay, decide_session, Dial, InboundGauge, InboundGaugeGuard, PeerEvent, PeerManager,
    SessionDecision, SessionOutcome,
};

#[test]
fn decide_admits_when_no_existing_session() {
    assert_eq!(
        decide_session("aaa", "bbb", true, None),
        SessionDecision::Admit
    );
    assert_eq!(
        decide_session("aaa", "bbb", false, None),
        SessionDecision::Admit
    );
}

#[test]
fn decide_rejects_same_kind_duplicates() {
    // Two inbound or two outbound sessions to the same bridge: the
    // second is always rejected, regardless of id order.
    assert_eq!(
        decide_session("aaa", "bbb", true, Some(true)),
        SessionDecision::Reject
    );
    assert_eq!(
        decide_session("aaa", "bbb", false, Some(false)),
        SessionDecision::Reject
    );
    assert_eq!(
        decide_session("bbb", "aaa", true, Some(true)),
        SessionDecision::Reject
    );
}

#[test]
fn decide_lower_id_keeps_outbound() {
    // Local id "aaa" < remote "bbb": outbound is preferred.
    // An inbound duplicate of the running outbound session is rejected.
    assert_eq!(
        decide_session("aaa", "bbb", true, Some(false)),
        SessionDecision::Reject
    );
    // A late outbound session replaces a tentatively-accepted inbound.
    assert_eq!(
        decide_session("aaa", "bbb", false, Some(true)),
        SessionDecision::Replace
    );
}

#[test]
fn decide_higher_id_keeps_inbound() {
    // Local id "bbb" > remote "aaa": inbound is preferred.
    // An outbound duplicate of the running inbound session is rejected.
    assert_eq!(
        decide_session("bbb", "aaa", false, Some(true)),
        SessionDecision::Reject
    );
    // A late inbound session replaces a tentatively-accepted outbound.
    assert_eq!(
        decide_session("bbb", "aaa", true, Some(false)),
        SessionDecision::Replace
    );
}

#[test]
fn decide_is_symmetric_between_peers() {
    // Both sides must converge on the same surviving connection: for a
    // given pair, the kind one side rejects is the kind the other keeps.
    for (local, remote) in [("aaa", "bbb"), ("bbb", "aaa")] {
        // Inbound arriving when outbound is active.
        let inbound_decision = decide_session(local, remote, true, Some(false));
        // Outbound arriving when inbound is active.
        let outbound_decision = decide_session(local, remote, false, Some(true));
        // Exactly one of the two mixed-kind collisions is a replace.
        let replaces = [inbound_decision, outbound_decision]
            .iter()
            .filter(|d| **d == SessionDecision::Replace)
            .count();
        assert_eq!(
            replaces, 1,
            "pair ({local}, {remote}) should replace exactly once"
        );
    }
}

#[test]
fn backoff_increases_and_caps() {
    assert_eq!(backoff_delay(1), 2);
    assert_eq!(backoff_delay(2), 4);
    assert_eq!(backoff_delay(3), 8);
    assert_eq!(backoff_delay(4), 16);
    assert_eq!(backoff_delay(5), 30);
    assert_eq!(backoff_delay(10), 30);
}

#[test]
fn backoff_attempt_zero_is_immediate() {
    assert_eq!(backoff_delay(0), 1);
}

#[test]
fn backoff_bounds() {
    for attempt in 0..20 {
        let delay = backoff_delay(attempt);
        assert!(
            delay >= 1,
            "attempt {} yielded delay < 1s",
            attempt
        );
        assert!(
            delay <= 30,
            "attempt {} yielded delay > 30s",
            attempt
        );
    }
}

fn peer(port: u16, reconnect: bool, replay_params: bool) -> PeerConfig {
    PeerConfig { host: "host".to_string(), port, reconnect, replay_params }
}

#[test]
fn a_rejected_dial_resumes_when_the_other_session_ends() {
    let mut manager = PeerManager::new("aaa".to_string(), vec![peer(1, true, true)]);
    assert_eq!(manager.config_count(), 1);
    assert_eq!(manager.config(0).port, 1);
    let key = manager.key_of(0);
    assert_eq!(key, "host:1");
    // A remote bridge with a lower id dials us; our own dial to it then loses.
    let (inbound, outcome) = manager.register("Zzz", true, None);
    assert_eq!(outcome, SessionOutcome::Admitted);
    let (_, outcome) = manager.register("Zzz", false, Some(key.clone()));
    assert_eq!(outcome, SessionOutcome::Rejected);
    assert_eq!(
        manager.handle_event(PeerEvent::SessionEnded { config_key: Some(key) }),
        None
    );
    assert_eq!(
        manager.session_finished("Zzz", inbound, true),
        Some(Dial { config: 0, attempt: 0 })
    );
}

#[test]
fn a_replaced_session_does_not_remove_its_replacement() {
    let mut manager = PeerManager::new("aaa".to_string(), vec![peer(1, true, true)]);
    let (first, _) = manager.register("bbb", true, None);
    let (second, outcome) = manager.register("bbb", false, Some("host:1".to_string()));
    assert_eq!(outcome, SessionOutcome::Replaced { entry_id: first, is_inbound: true });
    assert_eq!(manager.session_finished("bbb", first, true), None);
    // The replacement is still the active one.
    let (_, outcome) = manager.register("bbb", false, None);
    assert_eq!(outcome, SessionOutcome::Rejected);
    assert_eq!(manager.session_finished("bbb", second, false), None);
    let (_, outcome) = manager.register("bbb", false, None);
    assert_eq!(outcome, SessionOutcome::Admitted);
}

#[test]
fn failed_dials_back_off_and_a_connection_resets_them() {
    let mut manager = PeerManager::new(
        "aaa".to_string(),
        vec![peer(1, true, true), peer(2, false, false)],
    );
    let ended = |port: u16| PeerEvent::SessionEnded { config_key: Some(format!("host:{port}")) };
    assert_eq!(manager.handle_event(ended(1)), Some(Dial { config: 0, attempt: 1 }));
    assert_eq!(manager.handle_event(ended(1)), Some(Dial { config: 0, attempt: 2 }));
    manager.handle_event(PeerEvent::Connected { config_key: "host:1".to_string() });
    assert_eq!(manager.handle_event(ended(1)), Some(Dial { config: 0, attempt: 1 }));
    // A peer that does not reconnect, an unknown one, and an inbound session.
    assert_eq!(manager.handle_event(ended(2)), None);
    assert_eq!(manager.handle_event(ended(3)), None);
    assert_eq!(manager.handle_event(PeerEvent::SessionEnded { config_key: None }), None);
}

#[test]
fn params_are_replayed_as_configured() {
    let manager = PeerManager::new(
        "aaa".to_string(),
        vec![peer(1, true, true), peer(2, true, false)],
    );
    assert!(manager.should_replay_params(&None));
    assert!(manager.should_replay_params(&Some("host:1".to_string())));
    assert!(!manager.should_replay_params(&Some("host:2".to_string())));
}

#[test]
fn inbound_slots_are_bounded_and_given_back() {
    let mut gauge = InboundGauge::new(2);
    assert!(gauge.take_slot());
    assert!(gauge.take_slot());
    assert!(!gauge.take_slot());
    InboundGaugeGuard::new(true).release(&mut gauge);
    InboundGaugeGuard::new(false).release(&mut gauge);
    assert_eq!(gauge.open, 1);
    assert!(gauge.take_slot());
    assert!(!gauge.take_slot());
}
