use ensemble::cli::{
    flag_value, parse_flag_index, parse_flag_port, parse_port, parse_port_arg, resolve_port,
};

fn args(items: &[&str]) -> Vec<String> {
    items.iter().map(|s| s.to_string()).collect()
}

#[test]
fn the_first_flag_counts() {
    let a = args(&["hub", "--port", "1", "--port", "2"]);
    assert_eq!(flag_value(&a, "--port"), Some(&"1".to_string()));
    assert_eq!(parse_port_arg(&a), Some(1));
    assert_eq!(flag_value(&args(&["hub", "--port"]), "--port"), None);
    assert_eq!(parse_port_arg(&args(&["hub", "--port", "x", "--port", "2"])), None);
}

#[test]
fn ports_have_sixteen_bits() {
    assert_eq!(parse_port("65535"), Some(65535));
    assert_eq!(parse_port("65536"), None);
    assert_eq!(parse_port("+80"), Some(80));
    assert_eq!(parse_port(""), None);
    assert_eq!(parse_port("-1"), None);
    assert_eq!(parse_port("8 0"), None);
}

#[test]
fn the_port_argument_overrides_the_setting() {
    let setting = Some("2000".to_string());
    assert_eq!(resolve_port(&args(&["hub", "--port", "1000"]), &setting, 7331), 1000);
    assert_eq!(resolve_port(&args(&["hub", "--port", "bad"]), &setting, 7331), 2000);
    assert_eq!(resolve_port(&args(&["hub"]), &setting, 7331), 2000);
    assert_eq!(resolve_port(&args(&["hub"]), &Some("bad".to_string()), 7331), 7331);
    assert_eq!(resolve_port(&args(&["hub"]), &None, 7331), 7331);
}

#[test]
fn flags_give_ports_and_indices() {
    let a = args(&["midi", "--hub", "7000", "--output", "1", "--input", "x"]);
    assert_eq!(parse_flag_port(&a, "--hub"), Some(7000));
    assert_eq!(parse_flag_index(&a, "--output"), Some(1));
    assert_eq!(parse_flag_index(&a, "--input"), None);
    assert_eq!(parse_flag_index(&a, "--missing"), None);
}
