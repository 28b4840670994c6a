use ensemble::discovery::{
    cleanup_stale_port_file, get_port_file_path, get_unix_uid, read_port_file,
    set_port_file_path, write_port_file, Platform, Surroundings,
};

fn surroundings(platform: Platform) -> Surroundings {
    Surroundings {
        override_path: None,
        port_file: None,
        runtime_dir: None,
        tmpdir: None,
        local_app_data: None,
        user_profile: None,
        process_status: None,
        platform,
    }
}

fn path(s: &Surroundings) -> (String, Vec<String>) {
    let p = get_port_file_path(s);
    (p.base, p.parts)
}

fn expected(base: &str, parts: &[&str]) -> (String, Vec<String>) {
    (base.to_string(), parts.iter().map(|p| p.to_string()).collect())
}

#[test]
fn port_file_path_override() {
    let mut s = surroundings(Platform::Linux);
    s.port_file = Some("/custom/path/hub.port".to_string());
    assert_eq!(path(&s), expected("/custom/path/hub.port", &[]));
}

#[test]
fn test_override_takes_precedence_over_env() {
    let mut s = surroundings(Platform::Linux);
    s.port_file = Some("/tmp/env-hub.port".to_string());
    set_port_file_path(&mut s, Some("/tmp/override-hub.port".to_string()));
    assert_eq!(path(&s), expected("/tmp/override-hub.port", &[]));
    set_port_file_path(&mut s, None);
    assert_eq!(path(&s), expected("/tmp/env-hub.port", &[]));
}

#[test]
fn port_file_path_windows() {
    let mut s = surroundings(Platform::Windows);
    s.local_app_data = Some("C:\\Users\\test\\AppData\\Local".to_string());
    assert_eq!(
        path(&s),
        expected("C:\\Users\\test\\AppData\\Local", &["Ensemble", "hub.port"])
    );
    s.local_app_data = None;
    s.user_profile = Some("C:\\Users\\test".to_string());
    assert_eq!(
        path(&s),
        expected("C:\\Users\\test\\AppData\\Local", &["Ensemble", "hub.port"])
    );
    s.user_profile = None;
    assert_eq!(path(&s), expected(".", &["Ensemble", "hub.port"]));
}

#[test]
fn port_file_path_macos() {
    let mut s = surroundings(Platform::MacOs);
    s.tmpdir = Some("/var/folders/x".to_string());
    assert_eq!(path(&s), expected("/var/folders/x", &["ensemble-hub.port"]));
    s.tmpdir = None;
    assert_eq!(path(&s), expected("/tmp", &["ensemble-hub.port"]));
}

#[test]
fn port_file_path_linux_xdg() {
    let mut s = surroundings(Platform::Linux);
    s.runtime_dir = Some("/run/user/1000".to_string());
    assert_eq!(path(&s), expected("/run/user/1000", &["ensemble", "hub.port"]));
}

#[test]
fn port_file_path_linux_fallback() {
    let mut s = surroundings(Platform::Linux);
    s.process_status = Some("Name:\thub\nUid:\t1000\t1000\t1000\t1000\nGid:\t5\n".to_string());
    assert_eq!(path(&s), expected("/tmp/ensemble-hub-1000.port", &[]));
    s.process_status = None;
    assert_eq!(path(&s), expected("/tmp/ensemble-hub-0.port", &[]));
}

#[test]
fn user_ids_are_read_from_the_first_uid_line() {
    let uid = |s: &str| get_unix_uid(&Some(s.to_string()));
    assert_eq!(uid("Uid: 7 8\nUid: 9"), 7);
    assert_eq!(uid(" Uid: 7"), 0);
    assert_eq!(uid("Uid:7"), 0);
    assert_eq!(uid("Uid: x\nUid: 9"), 0);
    assert_eq!(uid("Uid:\t4294967296"), 0);
    assert_eq!(uid(""), 0);
}

#[test]
fn write_read_delete_cycle() {
    let text = write_port_file(7331);
    assert_eq!(text, "7331\n");
    assert_eq!(read_port_file(&Some(text)), Some(7331));
    assert_eq!(read_port_file(&None), None);
}

#[test]
fn malformed_port_file() {
    assert_eq!(read_port_file(&Some("not-a-number\n".to_string())), None);
    assert_eq!(read_port_file(&Some("".to_string())), None);
    assert_eq!(read_port_file(&Some("7331\nextra\n".to_string())), None);
    for text in ["not-a-port", "   ", "99999", "12 34", "0x10"] {
        assert_eq!(read_port_file(&Some(text.to_string())), None);
    }
    assert_eq!(read_port_file(&Some("  8080\r\n".to_string())), Some(8080));
}

#[test]
fn stale_port_file_detection() {
    assert!(cleanup_stale_port_file(Some(7331), false));
    assert!(!cleanup_stale_port_file(Some(7331), true));
    assert!(!cleanup_stale_port_file(None, false));
}

#[test]
fn every_port_survives_its_file() {
    for port in [0u16, 1, 9, 10, 80, 7331, 65535] {
        assert_eq!(read_port_file(&Some(write_port_file(port))), Some(port));
    }
}
