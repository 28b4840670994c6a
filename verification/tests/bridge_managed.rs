use ensemble::bridge::config::PeerConfig;
use ensemble::bridge::managed::{session_step, SessionAction, SessionNews, SessionStage};
use ensemble::bridge::peers::{Dial, PeerManager};

fn manager(local_id: &str) -> PeerManager {
    let peer = PeerConfig {
        host: "host".to_string(),
        port: 1,
        reconnect: true,
        replay_params: false,
    };
    PeerManager::new(local_id.to_string(), vec![peer])
}

fn key() -> Option<String> {
    Some("host:1".to_string())
}

fn identified(id: &str) -> SessionNews {
    SessionNews::Identified { bridge_id: id.to_string() }
}

fn step(
    m: &mut PeerManager,
    stage: SessionStage,
    news: SessionNews,
    inbound: bool,
) -> (SessionStage, Vec<SessionAction>) {
    let k = if inbound { None } else { key() };
    session_step(m, stage, news, inbound, &k)
}

fn is_key(k: &Option<String>) -> bool {
    *k == key()
}

#[test]
fn a_failed_handshake_ends_the_session() {
    let mut m = manager("a");
    let (stage, actions) = step(&mut m, SessionStage::Handshaking, SessionNews::Over, false);
    assert!(matches!(stage, SessionStage::Done));
    assert!(
        matches!(&actions[..], [SessionAction::ReportEnded { config_key }] if is_key(config_key))
    );
    let (_, actions) = step(&mut m, SessionStage::Handshaking, SessionNews::Over, true);
    assert!(matches!(
        &actions[..],
        [SessionAction::ReportEnded { config_key: None }, SessionAction::ReleaseSlot]
    ));
}

#[test]
fn a_session_runs_and_ends_once() {
    let mut m = manager("a");
    let (stage, actions) = step(&mut m, SessionStage::Handshaking, identified("b"), false);
    assert!(matches!(&stage, SessionStage::Active { remote_id, entry_id: 0 } if remote_id == "b"));
    assert!(matches!(
        &actions[..],
        [SessionAction::ReportConnected { config_key }, SessionAction::Run { replay: false }]
            if config_key == "host:1"
    ));
    let (stage, actions) = step(&mut m, stage, SessionNews::Over, false);
    assert!(matches!(stage, SessionStage::Done));
    assert!(matches!(&actions[..], [SessionAction::ReportEnded { .. }]));
    let (stage, actions) = step(&mut m, stage, SessionNews::Over, false);
    assert!(matches!(stage, SessionStage::Done));
    assert!(actions.is_empty());
}

#[test]
fn a_duplicate_is_closed_and_ends() {
    let mut m = manager("a");
    let (_active, actions) = step(&mut m, SessionStage::Handshaking, identified("b"), true);
    assert!(matches!(&actions[..], [SessionAction::Run { replay: true }]));
    let (stage, actions) = step(&mut m, SessionStage::Handshaking, identified("b"), true);
    assert!(matches!(stage, SessionStage::Done));
    assert!(matches!(
        &actions[..],
        [
            SessionAction::CloseDuplicate,
            SessionAction::ReportEnded { config_key: None },
            SessionAction::ReleaseSlot
        ]
    ));
}

#[test]
fn the_preferred_session_replaces_and_the_dial_resumes() {
    let mut m = manager("b");
    let (outbound, _) = step(&mut m, SessionStage::Handshaking, identified("a"), false);
    let (inbound, actions) = step(&mut m, SessionStage::Handshaking, identified("a"), true);
    assert!(matches!(
        &actions[..],
        [SessionAction::Cancel { entry_id: 0 }, SessionAction::Run { replay: true }]
    ));
    let (stage, actions) = step(&mut m, outbound, SessionNews::Over, false);
    assert!(matches!(stage, SessionStage::Done));
    assert!(matches!(&actions[..], [SessionAction::ReportEnded { .. }]));
    let (_, actions) = step(&mut m, inbound, SessionNews::Over, true);
    assert!(matches!(
        &actions[..],
        [
            SessionAction::Dial(Dial { config: 0, attempt: 0 }),
            SessionAction::ReportEnded { config_key: None },
            SessionAction::ReleaseSlot
        ]
    ));
}
