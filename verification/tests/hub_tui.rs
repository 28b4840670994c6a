use ensemble::hub_tui::{
    action_line, clamp_selection, inspected_params, log_lines, manifest_lines, newest_entries,
    param_line, param_value, selected_voice, sort_voices, truncate_payload, App, DetailPane,
    ParamInfo, RouteResult, VoiceInfo,
};
use ensemble::keys::KeyCode;
use ensemble::manifest::{RouteInfo, VoiceManifest};
use ensemble::protocol::{action_with_source, unset_param, SignalType, WireMessage};
use ensemble::values::{FloatValue, Value};

#[test]
fn test_truncate_payload_short() {
    assert_eq!(truncate_payload("hello"), "hello");
}

#[test]
fn test_truncate_payload_long_ascii() {
    let long = "a".repeat(50);
    let out = truncate_payload(&long);
    assert_eq!(out, format!("{}...", "a".repeat(37)));
}

#[test]
fn test_truncate_payload_multibyte() {
    // 50 multi-byte chars: byte slicing at 37 would panic mid-character,
    // char-based truncation must not.
    let multi = "é".repeat(50);
    let out = truncate_payload(&multi);
    assert_eq!(out, format!("{}...", "é".repeat(37)));
    assert_eq!(out.chars().count(), 40);
}

#[test]
fn test_truncate_payload_boundary() {
    // Exactly 40 chars is left alone; 41 is truncated.
    let forty = "x".repeat(40);
    assert_eq!(truncate_payload(&forty), forty);
    let forty_one = "x".repeat(41);
    assert_eq!(truncate_payload(&forty_one).chars().count(), 40);
}

#[test]
fn test_clamp_selection() {
    assert_eq!(clamp_selection(0, 0), 0);
    assert_eq!(clamp_selection(5, 0), 0);
    assert_eq!(clamp_selection(2, 5), 2);
    assert_eq!(clamp_selection(5, 3), 2);
    assert_eq!(clamp_selection(0, 1), 0);
}

fn type_text(app: &mut App, text: &str) {
    for c in text.chars() {
        app.handle_input(KeyCode::Char(c), true);
    }
}

#[test]
fn tab_goes_round_the_panes() {
    let mut app = App::new();
    let mut seen = Vec::new();
    for _ in 0..5 {
        seen.push(app.selected_tab());
        app.handle_input(KeyCode::Tab, true);
    }
    assert_eq!(seen, vec![0, 1, 2, 3, 4]);
    assert_eq!(app.detail_pane, DetailPane::Params);
    app.handle_input(KeyCode::Char('4'), true);
    assert_eq!(app.detail_pane, DetailPane::Manifest);
    app.handle_input(KeyCode::Char('1'), false);
    assert_eq!(app.detail_pane, DetailPane::Manifest);
}

#[test]
fn the_route_tester_takes_input() {
    let mut app = App::new();
    app.handle_input(KeyCode::Char('i'), true);
    assert!(!app.route_input_mode);
    app.handle_input(KeyCode::Char('5'), true);
    app.handle_input(KeyCode::Char('i'), true);
    assert!(app.route_input_mode);
    assert_eq!(app.route_result(), RouteResult::Incomplete);
    type_text(&mut app, "/a/*q");
    assert!(!app.should_quit);
    app.handle_input(KeyCode::Backspace, true);
    assert_eq!(app.pattern_field(), "/a/*_");
    assert_eq!(app.address_field(), "");
    app.handle_input(KeyCode::Tab, true);
    type_text(&mut app, "/a/b");
    assert_eq!(app.address_field(), "/a/b_");
    assert_eq!(app.route_result(), RouteResult::Matched);
    type_text(&mut app, "/c");
    assert_eq!(app.route_result(), RouteResult::NotMatched);
    app.handle_input(KeyCode::Esc, true);
    assert!(!app.route_input_mode);
    assert_eq!(app.pattern_field(), "/a/*");
    app.route_pattern = "a".to_string();
    assert_eq!(
        app.route_result(),
        RouteResult::Invalid("pattern must start with '/'".to_string())
    );
    app.handle_input(KeyCode::Char('q'), true);
    assert!(app.should_quit);
}

#[test]
fn the_selection_moves() {
    let mut app = App::new();
    app.handle_input(KeyCode::Up, true);
    assert_eq!(app.voice_selection, 0);
    app.handle_input(KeyCode::Down, true);
    app.handle_input(KeyCode::Char('j'), true);
    assert_eq!(app.voice_selection, 2);
    app.handle_input(KeyCode::Char('k'), true);
    assert_eq!(app.voice_selection, 1);
}

fn voice(id: u64) -> VoiceInfo {
    VoiceInfo { id, name: format!("v{id}"), connected_at: FloatValue::zero() }
}

#[test]
fn voices_are_listed_by_id() {
    let voices = sort_voices(vec![voice(3), voice(1), voice(2)]);
    let ids: Vec<u64> = voices.iter().map(|v| v.id).collect();
    assert_eq!(ids, vec![1, 2, 3]);
    assert_eq!(selected_voice(&voices, 1), Some(2));
    assert_eq!(selected_voice(&voices, 3), None);
}

fn param(source: u64, value: Value) -> ParamInfo {
    ParamInfo {
        address: "/a".to_string(),
        source,
        source_name: "src".to_string(),
        message: action_with_source(source, "/a", SignalType::Param, FloatValue::zero(), value),
    }
}

#[test]
fn the_inspector_shows_the_selected_voice() {
    let params = vec![
        param(1, Value::Integer(5)),
        param(2, Value::Null),
        param(1, Value::Null),
    ];
    assert_eq!(inspected_params(&params, Some(1)), vec![0, 2]);
    assert_eq!(inspected_params(&params, None), vec![0, 1, 2]);
    assert_eq!(param_value(&params[0].message), Some(&Value::Integer(5)));
    assert_eq!(param_value(&unset_param("/a")), None);
    let flat = WireMessage::new("x", Value::Bool(true));
    assert_eq!(param_value(&flat), Some(&Value::Bool(true)));
    assert_eq!(param_line(&params[0], &Some("5".to_string())), "  /a = 5  (from src)");
    assert_eq!(param_line(&params[0], &None), "  /a = ?  (from src)");
    let long = param_line(&params[0], &Some("x".repeat(41)));
    assert_eq!(long, format!("  /a = {}...  (from src)", "x".repeat(37)));
}

#[test]
fn the_log_viewer_shows_the_newest_events() {
    let log: Vec<String> = (0..25).map(|i| i.to_string()).collect();
    let lines = log_lines(&log);
    assert_eq!(lines.len(), 20);
    assert_eq!(lines[0], "  24");
    assert_eq!(lines[19], "  5");
    assert_eq!(newest_entries(2), vec![1, 0]);
}

#[test]
fn the_action_monitor_names_the_signal() {
    assert_eq!(
        action_line("1.500", SignalType::Event, "src", "/a"),
        "  [1.500] EVT src -> /a"
    );
    assert_eq!(action_line("0", SignalType::Param, "s", "/b"), "  [0] PAR s -> /b");
    assert_eq!(action_line("0", SignalType::Stream, "s", "/b"), "  [0] STR s -> /b");
}

#[test]
fn manifests_are_shown_line_by_line() {
    let mut m = VoiceManifest::new("Bridge");
    let show = |m: &VoiceManifest| -> Vec<String> {
        manifest_lines(m).iter().map(|l| format!("{}{}", l.label, l.text)).collect()
    };
    assert_eq!(show(&m), vec!["Name: Bridge", ""]);
    m.description = Some("d".to_string());
    m.version = Some("1".to_string());
    m.tags = vec!["a".to_string(), "b".to_string()];
    m.expects = vec!["e".to_string()];
    for (address, description) in [("/x", Some("first".to_string())), ("/y", None)] {
        m.routes.push(RouteInfo {
            address: address.to_string(),
            signal: SignalType::Event,
            payload_hint: None,
            description,
            example: None,
        });
    }
    assert_eq!(
        show(&m),
        vec![
            "Name: Bridge",
            "",
            "Description: d",
            "Version: 1",
            "Tags: a, b",
            "Expects: e",
            "",
            "Routes:",
            "  /x -> first",
            "  /y -> ",
        ]
    );
}
