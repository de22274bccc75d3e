use fallen_world_launcher::services::clf3::Clf3;

#[test]
fn saved_key_needs_a_nonempty_string() {
    assert!(Clf3::has_saved_api_key(Some(r#"{"nexus_api_key":"abc","x":1}"#)));
    assert!(!Clf3::has_saved_api_key(Some(r#"{"nexus_api_key":""}"#)));
    assert!(!Clf3::has_saved_api_key(Some(r#"{"nexus_api_key":5}"#)));
    assert!(!Clf3::has_saved_api_key(Some("not json")));
    assert!(!Clf3::has_saved_api_key(Some(r#"["nexus_api_key"]"#)));
    assert!(!Clf3::has_saved_api_key(None));
}

#[test]
fn api_key_command() {
    assert_eq!(Clf3::set_nexus_api_key(""), Err("Nexus API key cannot be empty".to_string()));
    assert_eq!(Clf3::set_nexus_api_key("k1"), Ok(vec!["set-api-key".to_string(), "k1".to_string()]));
}

#[test]
fn vendor_from_gpu_list() {
    let out = |s: &str| Ok(s.to_string());
    assert_eq!(Clf3::gpu_vendor(out(r#" [{"name":"Intel UHD"},{"name":"NVIDIA RTX"}] "#)), "Intel");
    assert_eq!(Clf3::gpu_vendor(out(r#"[{"id":1},{"name":"AMD Radeon RX 7800"}]"#)), "AMD");
    assert_eq!(Clf3::gpu_vendor(out(r#"[{"name":"llvmpipe"}]"#)), "Unknown");
    assert_eq!(Clf3::gpu_vendor(out("  ")), "Unknown");
    assert_eq!(Clf3::gpu_vendor(out(r#"{"name":"NVIDIA"}"#)), "Unknown");
    assert_eq!(Clf3::gpu_vendor(Err("clf3 list-gpu exited 1".to_string())), "Unknown");
}

#[test]
fn binary_lookup() {
    assert_eq!(Clf3::require(Some("/bin/clf3".to_string())), Ok("/bin/clf3".to_string()));
    assert!(Clf3::require(None).unwrap_err().starts_with("clf3 binary not found"));
}

#[test]
fn clf3_binary_lookup_order() {
    let files = vec!["/opt/clf3".to_string(), "/home/u/.local/share/clf3/clf3".to_string()];
    assert_eq!(Clf3::find(Some(" /opt/clf3 "), Some("/usr/bin/clf3".to_string()), "/home/u", &files), Some("/opt/clf3".to_string()));
    assert_eq!(Clf3::find(Some("/missing"), Some("/usr/bin/clf3".to_string()), "/home/u", &files), Some("/usr/bin/clf3".to_string()));
    assert_eq!(Clf3::find(None, None, "/home/u", &files), Some("/home/u/.local/share/clf3/clf3".to_string()));
    assert_eq!(Clf3::find(None, None, "/home/u", &[]), None);
}

#[test]
fn clf3_run_reports() {
    assert_eq!(Clf3::run_result("install", Ok((true, Some(0), "done".to_string(), String::new()))), Ok("done".to_string()));
    assert_eq!(
        Clf3::run_result("install", Ok((false, Some(2), String::new(), " bad url \n".to_string()))),
        Err("clf3 install exited 2: bad url".to_string())
    );
    assert_eq!(
        Clf3::run_result("list-gpu", Ok((false, None, String::new(), String::new()))),
        Err("clf3 list-gpu exited -1: ".to_string())
    );
    assert_eq!(
        Clf3::run_result("x", Err("not found".to_string())),
        Err("clf3 x failed to start: not found".to_string())
    );
    assert_eq!(Clf3::json_output("list-gpu", "  \n"), Err("clf3 list-gpu produced no JSON output".to_string()));
    assert_eq!(Clf3::json_output("list-gpu", " [1] \n"), Ok("[1]".to_string()));
}

#[test]
fn clf3_install_steps() {
    assert!(Clf3::fluorine_toggle_needed(None, true));
    assert!(!Clf3::fluorine_toggle_needed(Some(true), true));
    assert!(Clf3::fluorine_toggle_needed(Some(false), true));
    assert_eq!(Clf3::fluorine_toggle_result(Err("error: 0 values required".to_string())), Ok(()));
    assert_eq!(Clf3::fluorine_toggle_result(Err("other".to_string())), Err("other".to_string()));
    assert_eq!(Clf3::install_key_step("KEY", false), Ok(true));
    assert_eq!(Clf3::install_key_step("", true), Ok(false));
    assert!(Clf3::install_key_step("", false).unwrap_err().starts_with("No Nexus API key supplied"));
}
