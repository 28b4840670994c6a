use ensemble::osc::config::{unknown_args, Config};

fn args(items: &[&str]) -> Vec<String> {
    items.iter().map(|s| s.to_string()).collect()
}

#[test]
fn osc_defaults() {
    let c = Config::from_args(&args(&["bridge"]));
    assert_eq!(c.ens_prefix, "/osc/out");
    assert_eq!(c.osc_prefix, "");
    assert_eq!(c.osc_target_addr(), "127.0.0.1:9000");
    assert_eq!(c.osc_listen_port, 9001);
    assert_eq!(c.hub_port, None);
    assert_eq!(c.subscribe_pattern(), "/osc/out/**");
}

#[test]
fn osc_options_are_read() {
    let c = Config::from_args(&args(&[
        "bridge", "--name", "n", "--ens-prefix", "/e/", "--osc-prefix", "/o", "--osc-send-host",
        "h", "--osc-send-port", "1", "--osc-listen-port", "2", "--hub", "3",
    ]));
    assert_eq!(c.name, "n");
    assert_eq!(c.subscribe_pattern(), "/e/**");
    assert_eq!(c.osc_prefix, "/o");
    assert_eq!(c.osc_target_addr(), "h:1");
    assert_eq!(c.osc_listen_port, 2);
    assert_eq!(c.hub_port, Some(3));
}

#[test]
fn odd_arguments_are_passed_over() {
    let c = Config::from_args(&args(&["bridge", "x", "--osc-send-port", "70000", "--name"]));
    assert_eq!(c.osc_send_port, 9000);
    assert_eq!(c.name, Config::default().name);
}

#[test]
fn what_is_no_option_is_reported() {
    let given = args(&["bridge", "x", "--osc-send-port", "70000", "-v", "--hub", "y", "--name"]);
    assert_eq!(unknown_args(&given), vec!["x", "-v"]);
    assert!(unknown_args(&args(&["bridge"])).is_empty());
}
