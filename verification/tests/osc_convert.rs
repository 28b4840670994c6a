use ensemble::osc::convert::{
    ensemble_to_osc_args, osc_to_ensemble_value, received_action, route_action, to_osc_message,
    translate_address_inbound,
    translate_address_outbound, OscArg, OscMessage,
};
use ensemble::protocol::{action, get_string, get_value, unset_param, SignalType};
use ensemble::text_map::TextMap;
use ensemble::values::{FloatValue, Value};

fn float(x: f64) -> FloatValue {
    FloatValue::new(x.to_bits())
}

#[test]
fn test_ensemble_to_osc_null() {
    let args = ensemble_to_osc_args(&Value::Null);
    assert_eq!(args.len(), 1);
    assert!(matches!(args[0], OscArg::Nil));
}

#[test]
fn test_ensemble_to_osc_bool() {
    let args = ensemble_to_osc_args(&Value::Bool(true));
    assert_eq!(args.len(), 1);
    assert!(matches!(args[0], OscArg::Bool(true)));

    let args = ensemble_to_osc_args(&Value::Bool(false));
    assert_eq!(args.len(), 1);
    assert!(matches!(args[0], OscArg::Bool(false)));
}

#[test]
fn test_ensemble_to_osc_integer() {
    let args = ensemble_to_osc_args(&Value::Integer(42));
    assert_eq!(args.len(), 1);
    if let OscArg::Int(i) = args[0] {
        assert_eq!(i, 42);
    } else {
        panic!("Expected Int");
    }
}

#[test]
fn test_ensemble_to_osc_integer_clamped() {
    // Out-of-range i64 values clamp to the i32 extremes rather than truncate.
    let args = ensemble_to_osc_args(&Value::Integer(i64::MAX));
    assert!(matches!(args[0], OscArg::Int(i32::MAX)));

    let args = ensemble_to_osc_args(&Value::Integer(i64::MIN));
    assert!(matches!(args[0], OscArg::Int(i32::MIN)));

    let args = ensemble_to_osc_args(&Value::Integer(i32::MAX as i64 + 1));
    assert!(matches!(args[0], OscArg::Int(i32::MAX)));

    let args = ensemble_to_osc_args(&Value::Integer(i32::MIN as i64 - 1));
    assert!(matches!(args[0], OscArg::Int(i32::MIN)));
}

#[test]
fn test_ensemble_to_osc_float() {
    let args = ensemble_to_osc_args(&Value::Float(float(2.5)));
    assert_eq!(args.len(), 1);
    if let OscArg::Float(f) = args[0] {
        assert_eq!(f64::from_bits(f.value()), 2.5);
    } else {
        panic!("Expected Float");
    }
}

#[test]
fn test_ensemble_to_osc_string() {
    let args = ensemble_to_osc_args(&Value::String("hello".into()));
    assert_eq!(args.len(), 1);
    if let OscArg::String(s) = &args[0] {
        assert_eq!(s, "hello");
    } else {
        panic!("Expected String");
    }
}

#[test]
fn test_ensemble_to_osc_binary() {
    let args = ensemble_to_osc_args(&Value::Binary(vec![1, 2, 3]));
    assert_eq!(args.len(), 1);
    if let OscArg::Blob(b) = &args[0] {
        assert_eq!(b, &vec![1, 2, 3]);
    } else {
        panic!("Expected Blob");
    }
}

#[test]
fn test_ensemble_to_osc_tuple_flattened() {
    let args = ensemble_to_osc_args(&Value::Tuple(vec![
        Value::Integer(1),
        Value::Float(float(2.0)),
        Value::String("three".into()),
    ]));
    assert_eq!(args.len(), 3);
    assert!(matches!(args[0], OscArg::Int(1)));
    assert!(matches!(args[1], OscArg::Float(_)));
    assert!(matches!(args[2], OscArg::String(_)));
}

#[test]
fn test_osc_to_ensemble_empty() {
    let val = osc_to_ensemble_value(&Vec::new());
    assert!(matches!(val, Value::Null));
}

#[test]
fn test_osc_to_ensemble_single_int() {
    let val = osc_to_ensemble_value(&vec![OscArg::Int(42)]);
    if let Value::Integer(i) = val {
        assert_eq!(i, 42);
    } else {
        panic!("Expected Integer");
    }
}

#[test]
fn test_osc_to_ensemble_multiple_becomes_tuple() {
    let val = osc_to_ensemble_value(&vec![
        OscArg::Int(1),
        OscArg::Float(float(2.0)),
        OscArg::String("three".into()),
    ]);
    if let Value::Tuple(items) = val {
        assert_eq!(items.len(), 3);
        assert!(matches!(items[0], Value::Integer(1)));
        assert!(matches!(items[1], Value::Float(_)));
        assert!(matches!(items[2], Value::String(_)));
    } else {
        panic!("Expected Tuple");
    }
}

#[test]
fn test_address_outbound_basic() {
    let result = translate_address_outbound("/osc/out/synth/freq", "/osc/out", "");
    assert_eq!(result, Some("/synth/freq".to_string()));
}

#[test]
fn test_address_outbound_with_osc_prefix() {
    let result = translate_address_outbound("/osc/out/synth/freq", "/osc/out", "/sc");
    assert_eq!(result, Some("/sc/synth/freq".to_string()));
}

#[test]
fn test_address_outbound_no_match() {
    let result = translate_address_outbound("/other/path", "/osc/out", "");
    assert_eq!(result, None);
}

#[test]
fn test_address_outbound_segment_boundary() {
    // "/osc/output" merely shares a byte prefix with "/osc/out" — no strip.
    assert_eq!(
        translate_address_outbound("/osc/output/freq", "/osc/out", ""),
        None
    );
    assert_eq!(
        translate_address_outbound("/osc/out2/x", "/osc/out", ""),
        None
    );
    // An exact prefix match maps to the OSC root.
    assert_eq!(
        translate_address_outbound("/osc/out", "/osc/out", ""),
        Some("/".to_string())
    );
    // Arbitrarily deep addresses below the prefix strip fine.
    assert_eq!(
        translate_address_outbound("/osc/out/a/very/deep/address", "/osc/out", ""),
        Some("/a/very/deep/address".to_string())
    );
}

#[test]
fn test_address_outbound_trailing_slash_prefix() {
    // A trailing slash on the prefix behaves like the bare prefix.
    assert_eq!(
        translate_address_outbound("/osc/out/synth", "/osc/out/", ""),
        Some("/synth".to_string())
    );
    assert_eq!(
        translate_address_outbound("/osc/output/synth", "/osc/out/", ""),
        None
    );
}

#[test]
fn test_address_inbound_basic() {
    let result = translate_address_inbound("/slider/1", "", "/osc/in");
    assert_eq!(result, "/osc/in/slider/1");
}

#[test]
fn test_address_inbound_with_osc_prefix() {
    let result = translate_address_inbound("/sc/synth/freq", "/sc", "/osc/in");
    assert_eq!(result, "/osc/in/synth/freq");
}

#[test]
fn test_address_inbound_segment_boundary() {
    // "/scx/y" does not match "/sc" on a segment boundary — kept whole.
    assert_eq!(
        translate_address_inbound("/scx/y", "/sc", "/osc/in"),
        "/osc/in/scx/y"
    );
    // An exact prefix match maps to the Ensemble prefix root.
    assert_eq!(
        translate_address_inbound("/sc", "/sc", "/osc/in"),
        "/osc/in"
    );
    // Deep addresses below the prefix strip fine.
    assert_eq!(
        translate_address_inbound("/sc/a/very/deep/address", "/sc", "/osc/in"),
        "/osc/in/a/very/deep/address"
    );
    // A trailing slash on the prefix behaves like the bare prefix.
    assert_eq!(
        translate_address_inbound("/sc/synth", "/sc/", "/osc/in"),
        "/osc/in/synth"
    );
}

#[test]
fn test_address_roundtrip() {
    let ens_addr = "/osc/out/synth/freq";
    let ens_prefix = "/osc/out";
    let osc_prefix = "";

    let osc_addr = translate_address_outbound(ens_addr, ens_prefix, osc_prefix).unwrap();
    assert_eq!(osc_addr, "/synth/freq");

    let back = translate_address_inbound(&osc_addr, osc_prefix, "/osc/in");
    assert_eq!(back, "/osc/in/synth/freq");
}

#[test]
fn test_to_osc_message_deep_address() {
    let msg = to_osc_message(
        "/osc/out/deep/nested/addr",
        &Value::Integer(1),
        "/osc/out",
        "",
    )
    .unwrap();
    assert_eq!(msg.addr, "/deep/nested/addr");
    assert_eq!(msg.args.len(), 1);
}

#[test]
fn test_to_osc_message_rejects_off_prefix_address() {
    assert!(to_osc_message("/osc/output/x", &Value::Integer(1), "/osc/out", "").is_none());
}

#[test]
fn addresses_survive_the_way_out_and_back() {
    for address in ["/osc/out", "/osc/out/a", "/osc/out/a/b", "/osc/out/"] {
        let out = translate_address_outbound(address, "/osc/out", "/sc").unwrap();
        assert_eq!(translate_address_inbound(&out, "/sc", "/osc/out"), address);
    }
}

#[test]
fn scalars_survive_the_way_out_and_back() {
    for value in [
        Value::Null,
        Value::Bool(true),
        Value::Integer(-7),
        Value::Float(float(2.5)),
        Value::String("x".into()),
        Value::Binary(vec![1, 2]),
    ] {
        assert_eq!(osc_to_ensemble_value(&ensemble_to_osc_args(&value)), value);
    }
}

#[test]
fn clamped_integers_stay_ordered() {
    let mut last = i32::MIN;
    for n in [i64::MIN, -5_000_000_000, -1, 0, 1, 5_000_000_000, i64::MAX] {
        match ensemble_to_osc_args(&Value::Integer(n))[0] {
            OscArg::Int(i) => {
                assert!(last <= i);
                last = i;
            }
            _ => panic!("Expected Int"),
        }
    }
}

#[test]
fn typed_binary_becomes_a_tagged_blob() {
    let args = ensemble_to_osc_args(&Value::TypedBinary {
        tag: "ab".into(),
        data: vec![1, 2],
    });
    assert!(matches!(&args[0], OscArg::Blob(b) if *b == vec![b'a', b'b', 0, 1, 2]));
}

#[test]
fn maps_become_one_json_argument() {
    let mut m = TextMap::new();
    m.insert("a".to_string(), Value::Integer(1));
    let args = ensemble_to_osc_args(&Value::Dict(m));
    assert_eq!(args.len(), 1);
    assert!(matches!(&args[0], OscArg::Json(_)));
}

#[test]
fn nested_lists_are_flattened() {
    let args = ensemble_to_osc_args(&Value::List(vec![
        Value::Integer(1),
        Value::Tuple(vec![Value::Integer(2), Value::List(vec![])]),
        Value::Integer(3),
    ]));
    assert_eq!(args.len(), 3);
    assert!(matches!(args[1], OscArg::Int(2)));
}

#[test]
fn osc_arrays_become_lists() {
    let arg = OscArg::Array(vec![OscArg::Int(1), OscArg::Nil]);
    assert_eq!(
        osc_to_ensemble_value(&vec![arg]),
        Value::List(vec![Value::Integer(1), Value::Null])
    );
}

#[test]
fn only_actions_are_sent_as_osc() {
    let msg = action("/osc/out/x", SignalType::Event, float(0.0), Value::Integer(1));
    let osc = route_action(&msg, "/osc/out", "").unwrap();
    assert_eq!(osc.addr, "/x");
    assert!(route_action(&unset_param("/osc/out/x"), "/osc/out", "").is_none());
    let other = action("/else/x", SignalType::Event, float(0.0), Value::Integer(1));
    assert!(route_action(&other, "/osc/out", "").is_none());
}

#[test]
fn received_osc_becomes_an_event() {
    let osc = OscMessage { addr: "/sc/x".to_string(), args: vec![OscArg::Int(3)] };
    let msg = received_action(&osc, "/sc");
    match &msg.payload {
        Value::Dict(m) => {
            assert_eq!(get_string(m, "address"), Some("/osc/in/x".to_string()));
            assert_eq!(get_string(m, "signal_type"), Some("event".to_string()));
            assert_eq!(get_value(m, "payload"), Some(Value::Integer(3)));
        }
        _ => panic!("no map"),
    }
}

#[test]
fn tuples_of_scalars_survive_the_way_out_and_back() {
    let pair = Value::Tuple(vec![Value::Integer(1), Value::String("x".into())]);
    assert_eq!(osc_to_ensemble_value(&ensemble_to_osc_args(&pair)), pair);
    let single = Value::Tuple(vec![Value::Bool(true)]);
    assert_eq!(osc_to_ensemble_value(&ensemble_to_osc_args(&single)), Value::Bool(true));
    let empty = Value::Tuple(vec![]);
    assert_eq!(osc_to_ensemble_value(&ensemble_to_osc_args(&empty)), Value::Null);
}

#[test]
fn rare_arguments_become_strings() {
    assert_eq!(
        osc_to_ensemble_value(&vec![OscArg::Rare("Long(5)".to_string())]),
        Value::String("Long(5)".into())
    );
}
