use ensemble::demo::euclidean::{euclidean, AppState, KeyEffect, SchedulerState, Tick};
use ensemble::keys::KeyCode;
use ensemble::protocol::{get_float, get_string, get_value};
use ensemble::values::{FloatValue, Value};

#[test]
fn test_euclidean_3_8() {
    // E(3,8) — the "tresillo" rhythm
    let pattern = euclidean(8, 3, 0);
    assert_eq!(pattern.len(), 8);
    assert_eq!(pattern.iter().filter(|&&b| b).count(), 3);
    // Bucket-fill produces: [. . X . . X . X]
    assert_eq!(pattern, vec![false, false, true, false, false, true, false, true]);
}

#[test]
fn test_euclidean_4_16() {
    // E(4,16) — four-on-the-floor with gaps
    let pattern = euclidean(16, 4, 0);
    assert_eq!(pattern.len(), 16);
    assert_eq!(pattern.iter().filter(|&&b| b).count(), 4);
    // Bucket-fill produces: [. . . X . . . X . . . X . . . X]
    assert_eq!(
        pattern,
        vec![
            false, false, false, true,
            false, false, false, true,
            false, false, false, true,
            false, false, false, true,
        ]
    );
}

#[test]
fn test_euclidean_all_hits() {
    let pattern = euclidean(4, 4, 0);
    assert_eq!(pattern, vec![true, true, true, true]);
}

#[test]
fn test_euclidean_no_hits() {
    let pattern = euclidean(4, 0, 0);
    assert_eq!(pattern, vec![false, false, false, false]);
}

#[test]
fn test_euclidean_rotation() {
    let pattern = euclidean(8, 3, 2);
    assert_eq!(pattern.len(), 8);
    assert_eq!(pattern.iter().filter(|&&b| b).count(), 3);
    // Base pattern [. . X . . X . X] rotated left by 2 = [X . . X . X . .]
    assert_eq!(pattern, vec![true, false, false, true, false, true, false, false]);
}

#[test]
fn test_euclidean_5_8() {
    // E(5,8) — the "cinquillo" rhythm
    let pattern = euclidean(8, 5, 0);
    assert_eq!(pattern.len(), 8);
    assert_eq!(pattern.iter().filter(|&&b| b).count(), 5);
}

#[test]
fn test_euclidean_2_5() {
    // E(2,5) — the "khafif-e-ramal" rhythm
    let pattern = euclidean(5, 2, 0);
    assert_eq!(pattern.len(), 5);
    assert_eq!(pattern.iter().filter(|&&b| b).count(), 2);
    // Bucket-fill produces: [. . X . X]
    assert_eq!(pattern, vec![false, false, true, false, true]);
}

#[test]
fn test_advance() {
    let mut state = SchedulerState {
        bpm: FloatValue::new(120.0f64.to_bits()),
        steps: 4,
        hits: 2,
        rotation: 0,
        output_address: "/test".to_string(),
        current_step: 0,
    };

    assert_eq!(state.current_step, 0);
    state.advance();
    assert_eq!(state.current_step, 1);
    state.advance();
    assert_eq!(state.current_step, 2);
    state.advance();
    assert_eq!(state.current_step, 3);
    state.advance();
    assert_eq!(state.current_step, 0); // Wraps around
}

#[test]
fn every_stretch_has_its_share_of_hits() {
    for steps in 1..=16 {
        for hits in 0..=steps {
            for rotation in [0, 1, 7] {
                let bar = euclidean(steps, hits, rotation);
                assert_eq!(bar.iter().filter(|b| **b).count(), hits);
                for from in 0..=steps {
                    for to in from..=steps {
                        let n = bar[from..to].iter().filter(|b| **b).count();
                        let share = (to - from) * hits / steps;
                        assert!(n == share || n == share + 1);
                    }
                }
            }
        }
    }
}

#[test]
fn rotation_by_a_bar_changes_nothing() {
    assert_eq!(euclidean(8, 3, 10), euclidean(8, 3, 2));
    assert_eq!(euclidean(8, 3, usize::MAX), euclidean(8, 3, usize::MAX % 8));
}

#[test]
fn the_scheduler_triggers_on_hits() {
    let mut state = AppState::new();
    let pattern = state.pattern();
    for hit in pattern {
        let expected = if hit { Tick::Trigger } else { Tick::Rest };
        assert_eq!(state.tick(), expected);
    }
    assert_eq!(state.scheduler.current_step, 0);
    state.handle_input(KeyCode::Char(' '), false);
    assert!(state.paused);
    assert_eq!(state.tick(), Tick::Rest);
    assert_eq!(state.scheduler.current_step, 0);
    state.handle_input(KeyCode::Char(' '), false);
    assert!(!state.paused);
    state.running = false;
    assert_eq!(state.tick(), Tick::Stop);
}

#[test]
fn keys_edit_the_rhythm() {
    let mut state = AppState::new();
    assert_eq!(state.handle_input(KeyCode::Right, false), KeyEffect::Publish);
    assert_eq!(state.scheduler.steps, 17);
    assert_eq!(state.handle_input(KeyCode::Right, true), KeyEffect::Publish);
    assert_eq!(state.scheduler.rotation, 1);
    state.handle_input(KeyCode::Left, true);
    assert_eq!(state.handle_input(KeyCode::Left, true), KeyEffect::Nothing);
    for _ in 0..20 {
        state.handle_input(KeyCode::Left, false);
    }
    assert_eq!((state.scheduler.steps, state.scheduler.hits), (1, 1));
    assert_eq!(state.handle_input(KeyCode::Up, false), KeyEffect::Nothing);
    assert_eq!(state.handle_input(KeyCode::Down, false), KeyEffect::Publish);
    assert_eq!(state.handle_input(KeyCode::Down, false), KeyEffect::Nothing);
    assert_eq!(
        state.handle_input(KeyCode::Char('B'), true),
        KeyEffect::ChangeTempo { up: true, large: true }
    );
    assert_eq!(
        state.handle_input(KeyCode::Char('b'), false),
        KeyEffect::ChangeTempo { up: false, large: false }
    );
    for _ in 0..100 {
        state.handle_input(KeyCode::Right, false);
    }
    assert_eq!(state.scheduler.steps, 64);
    state.handle_input(KeyCode::Char('q'), false);
    assert!(state.should_quit);
}

#[test]
fn fewer_steps_keep_the_state_in_the_bar() {
    let mut state = SchedulerState::new();
    state.hits = 10;
    state.current_step = 9;
    state.set_steps(8);
    assert_eq!((state.steps, state.hits, state.current_step), (8, 8, 0));
}

#[test]
fn the_rhythm_is_published() {
    let state = AppState::new();
    let now = FloatValue::new(1.5f64.to_bits());
    let sent: Vec<(String, String, Value)> = state
        .publish_params(now)
        .iter()
        .map(|m| match &m.payload {
            Value::Dict(map) => {
                assert_eq!(get_float(map, "timestamp"), Some(now));
                (
                    get_string(map, "address").unwrap(),
                    get_string(map, "signal_type").unwrap(),
                    get_value(map, "payload").unwrap(),
                )
            }
            _ => panic!("no map"),
        })
        .collect();
    let param = |address: &str, v: Value| (address.to_string(), "param".to_string(), v);
    assert_eq!(
        sent,
        vec![
            param("/demo/euclid/bpm", Value::Float(FloatValue::new(120.0f64.to_bits()))),
            param("/demo/euclid/steps", Value::Integer(16)),
            param("/demo/euclid/hits", Value::Integer(4)),
            param("/demo/euclid/rotation", Value::Integer(0)),
            param("/demo/euclid/output", Value::String("/demo/euclid/trigger".into())),
        ]
    );
    match &state.send_trigger(now).payload {
        Value::Dict(map) => {
            assert_eq!(get_string(map, "address"), Some("/demo/euclid/trigger".to_string()));
            assert_eq!(get_string(map, "signal_type"), Some("event".to_string()));
        }
        _ => panic!("no map"),
    }
    assert_eq!(state.step_info(), "Step: 1/16 | Rotation: 0");
}

#[test]
fn every_stretch_holds_its_share() {
    for (steps, hits) in [(8usize, 3usize), (8, 4), (16, 5), (7, 7), (5, 0)] {
        let bar = euclidean(steps, hits, 2);
        for length in 0..=steps {
            for from in 0..steps {
                let count = (from..from + length).filter(|i| bar[i % steps]).count();
                assert!(length * hits / steps <= count);
                assert!(count <= (length * hits + steps - 1) / steps);
            }
        }
    }
}

#[test]
fn a_step_outside_the_bar_comes_back_into_it() {
    let mut s = SchedulerState::new();
    s.steps = 4;
    s.hits = 9;
    s.current_step = 6;
    s.advance();
    assert_eq!(s.current_step, 3);
    s.advance();
    assert_eq!((s.current_step, s.hits), (0, 9));
}
