use ensemble::manifest::{RouteInfo, VoiceManifest};
use ensemble::protocol::SignalType;
use ensemble::text_map::TextMap;
use ensemble::values::{FloatValue, Value};

fn float(x: f64) -> FloatValue {
    FloatValue::new(x.to_bits())
}

fn sample_manifest() -> VoiceManifest {
    VoiceManifest {
        name: "MIDI Bridge".into(),
        description: Some("Provides MIDI input and output integration.".into()),
        version: Some("1.0.0".into()),
        tags: vec!["midi".into(), "bridge".into()],
        provides: vec!["midi-input".into(), "midi-output".into()],
        expects: vec!["midi-output".into()],
        routes: vec![
            RouteInfo {
                address: "/midi/play".into(),
                signal: SignalType::Event,
                payload_hint: Some("(channel:int, note:int, velocity:int)".into()),
                description: Some("MIDI note-on event.".into()),
                example: Some(Value::Dict({
                    let mut m = TextMap::new();
                    m.insert("note".into(), Value::Integer(60));
                    m.insert("velocity".into(), Value::Integer(100));
                    m
                })),
            },
            RouteInfo {
                address: "/transport/bpm".into(),
                signal: SignalType::Param,
                payload_hint: Some("float".into()),
                description: Some("Current playback tempo.".into()),
                example: Some(Value::Float(float(120.0))),
            },
        ],
    }
}

#[test]
fn manifest_roundtrip() {
    let original = sample_manifest();
    let value = original.to_value();
    let restored = VoiceManifest::from_value(&value).expect("Should parse");
    assert_eq!(original, restored);
}

#[test]
fn minimal_manifest_roundtrip() {
    let original = VoiceManifest::new("Simple");
    let value = original.to_value();
    let restored = VoiceManifest::from_value(&value).expect("Should parse");
    assert_eq!(original, restored);
    assert_eq!(restored.description, None);
    assert_eq!(restored.version, None);
    assert!(restored.tags.is_empty());
    assert!(restored.provides.is_empty());
    assert!(restored.expects.is_empty());
    assert!(restored.routes.is_empty());
}

#[test]
fn from_value_rejects_non_map() {
    assert!(VoiceManifest::from_value(&Value::Null).is_none());
    assert!(VoiceManifest::from_value(&Value::Integer(42)).is_none());
    assert!(VoiceManifest::from_value(&Value::String("nope".into())).is_none());
}

#[test]
fn from_value_rejects_missing_name() {
    let m = Value::Dict(TextMap::new());
    assert!(VoiceManifest::from_value(&m).is_none());
}

#[test]
fn from_value_rejects_non_string_name() {
    let mut m = TextMap::new();
    m.insert("name".into(), Value::Integer(42));
    assert!(VoiceManifest::from_value(&Value::Dict(m)).is_none());
}

#[test]
fn route_info_roundtrip() {
    let route = RouteInfo {
        address: "/track/{id}/volume".into(),
        signal: SignalType::Param,
        payload_hint: Some("float".into()),
        description: Some("Track volume fader.".into()),
        example: Some(Value::Float(float(0.75))),
    };
    let value = route.to_value();
    let restored = RouteInfo::from_value(&value).expect("Should parse");
    assert_eq!(route, restored);
}

#[test]
fn route_info_minimal() {
    let route = RouteInfo {
        address: "/test".into(),
        signal: SignalType::Event,
        payload_hint: None,
        description: None,
        example: None,
    };
    let value = route.to_value();
    let restored = RouteInfo::from_value(&value).expect("Should parse");
    assert_eq!(route, restored);
}

#[test]
fn patch_updates_description_only() {
    let mut manifest = sample_manifest();
    let original_tags = manifest.tags.clone();
    let original_provides = manifest.provides.clone();

    let mut patch = TextMap::new();
    patch.insert(
        "description".into(),
        Value::String("Updated description.".into()),
    );
    manifest.apply_patch(&patch);

    assert_eq!(manifest.description, Some("Updated description.".into()));
    // Other fields unchanged.
    assert_eq!(manifest.name, "MIDI Bridge");
    assert_eq!(manifest.tags, original_tags);
    assert_eq!(manifest.provides, original_provides);
    assert_eq!(manifest.version, Some("1.0.0".into()));
}

#[test]
fn patch_replaces_tags_entirely() {
    let mut manifest = sample_manifest();
    let mut patch = TextMap::new();
    patch.insert(
        "tags".into(),
        Value::List(vec![Value::String("new-tag".into())]),
    );
    manifest.apply_patch(&patch);
    assert_eq!(manifest.tags, vec!["new-tag"]);
    // Name and other fields unchanged.
    assert_eq!(manifest.name, "MIDI Bridge");
    assert_eq!(manifest.description, Some("Provides MIDI input and output integration.".into()));
}

#[test]
fn patch_replaces_routes_entirely() {
    let mut manifest = sample_manifest();
    assert_eq!(manifest.routes.len(), 2);

    let mut patch = TextMap::new();
    let new_route = RouteInfo {
        address: "/new/route".into(),
        signal: SignalType::Stream,
        payload_hint: None,
        description: None,
        example: None,
    };
    patch.insert("routes".into(), Value::List(vec![new_route.to_value()]));
    manifest.apply_patch(&patch);

    assert_eq!(manifest.routes.len(), 1);
    assert_eq!(manifest.routes[0].address, "/new/route");
    assert_eq!(manifest.routes[0].signal, SignalType::Stream);
}

#[test]
fn patch_can_clear_optional_fields_with_null() {
    let mut manifest = sample_manifest();
    assert!(manifest.description.is_some());
    assert!(manifest.version.is_some());

    let mut patch = TextMap::new();
    patch.insert("description".into(), Value::Null);
    patch.insert("version".into(), Value::Null);
    manifest.apply_patch(&patch);

    assert_eq!(manifest.description, None);
    assert_eq!(manifest.version, None);
    // Name still intact.
    assert_eq!(manifest.name, "MIDI Bridge");
}

#[test]
fn patch_updates_name() {
    let mut manifest = sample_manifest();
    let mut patch = TextMap::new();
    patch.insert("name".into(), Value::String("Renamed Bridge".into()));
    manifest.apply_patch(&patch);
    assert_eq!(manifest.name, "Renamed Bridge");
}

#[test]
fn empty_patch_leaves_manifest_unchanged() {
    let original = sample_manifest();
    let mut manifest = original.clone();
    let patch = TextMap::new();
    manifest.apply_patch(&patch);
    assert_eq!(manifest, original);
}

#[test]
fn patch_multiple_fields_at_once() {
    let mut manifest = VoiceManifest::new("Original");
    let mut patch = TextMap::new();
    patch.insert("name".into(), Value::String("Updated".into()));
    patch.insert(
        "description".into(),
        Value::String("A new description.".into()),
    );
    patch.insert(
        "provides".into(),
        Value::List(vec![Value::String("audio-output".into())]),
    );
    patch.insert(
        "expects".into(),
        Value::List(vec![Value::String("audio-input".into())]),
    );
    manifest.apply_patch(&patch);

    assert_eq!(manifest.name, "Updated");
    assert_eq!(manifest.description, Some("A new description.".into()));
    assert_eq!(manifest.provides, vec!["audio-output"]);
    assert_eq!(manifest.expects, vec!["audio-input"]);
}

#[test]
fn invalid_signal_type_in_route_returns_none() {
    let mut m = TextMap::new();
    m.insert("address".into(), Value::String("/test".into()));
    m.insert("signal".into(), Value::String("invalid".into()));
    assert!(RouteInfo::from_value(&Value::Dict(m)).is_none());
}

#[test]
fn invalid_route_entries_are_skipped() {
    let mut manifest = VoiceManifest::new("Test");
    let mut patch = TextMap::new();
    // Mix of valid and invalid route entries.
    let valid_route = RouteInfo {
        address: "/valid".into(),
        signal: SignalType::Event,
        payload_hint: None,
        description: None,
        example: None,
    };
    patch.insert(
        "routes".into(),
        Value::List(vec![
            valid_route.to_value(),
            Value::String("not a route".into()), // Invalid — should be skipped.
            Value::Integer(42),                   // Invalid — should be skipped.
        ]),
    );
    manifest.apply_patch(&patch);
    assert_eq!(manifest.routes.len(), 1);
    assert_eq!(manifest.routes[0].address, "/valid");
}

#[test]
fn a_patch_applied_twice_changes_nothing_more() {
    let mut patch = TextMap::new();
    patch.insert("name".into(), Value::String("Renamed".into()));
    patch.insert("version".into(), Value::Null);
    let mut once = sample_manifest();
    once.apply_patch(&patch);
    let mut twice = once.clone();
    twice.apply_patch(&patch);
    assert_eq!(once, twice);
    assert_eq!(once.name, "Renamed");
    assert_eq!(once.version, None);
    assert_eq!(once.routes, sample_manifest().routes);
}

#[test]
fn a_full_patch_replaces_the_manifest() {
    let target = sample_manifest();
    let mut manifest = VoiceManifest::new("Empty");
    if let Value::Dict(patch) = target.to_value() {
        manifest.apply_patch(&patch);
    }
    assert_eq!(manifest, target);
}
