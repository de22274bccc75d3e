use fallen_world_launcher::services::enb_manager::{EnbAmount, EnbIniChange, EnbManager};

fn v(s: &[&str]) -> Vec<String> {
    s.iter().map(|x| x.to_string()).collect()
}

#[test]
fn protected_and_kept_files() {
    assert!(EnbManager::is_enblocal("Root\\ENBLocal.ini"));
    assert!(!EnbManager::is_enblocal("Root/enbseries.ini"));
    assert!(EnbManager::is_kept("ROOT/d3d11.dll"));
    assert!(!EnbManager::is_kept("Root/enbseries.ini"));
    assert_eq!(EnbManager::norm("A\\B/C.INI"), "a/b/c.ini");
}

#[test]
fn default_files_exclude_metadata() {
    let found = v(&["meta.ini", "Showcase.PNG", "Root/enblocal.ini", "Root/d3d11.dll", "Root/enbseries/x.fx"]);
    assert_eq!(EnbManager::collect_default_files(&found), v(&["Root/d3d11.dll", "Root/enbseries/x.fx"]));
}

#[test]
fn custom_files_are_routed_under_root() {
    let found = v(&["d3d11.dll", "enblocal.ini", "enbseries.ini"]);
    assert_eq!(
        EnbManager::collect_custom_files(&found, false, true),
        Ok(v(&["Root/d3d11.dll", "Root/enbseries.ini"]))
    );
    assert_eq!(EnbManager::collect_custom_files(&found, true, true), Ok(found.clone()));
    assert_eq!(
        EnbManager::collect_custom_files(&v(&["enblocal.ini"]), false, true),
        Err("No installable ENB files found in the selected folder.".to_string())
    );
}

#[test]
fn removal_lists() {
    let m = v(&["Root/b.fx", "Root/enblocal.ini"]);
    let d = v(&["Root/a.fx", "Root/b.fx", "Root/d3d11.dll"]);
    assert_eq!(EnbManager::removal_list(&m, &d), v(&["Root/b.fx", "Root/enblocal.ini", "Root/a.fx", "Root/b.fx", "Root/d3d11.dll"]));
    assert_eq!(EnbManager::disable_removal(&m, &d), v(&["Root/a.fx", "Root/b.fx"]));
    assert_eq!(EnbManager::deletable(&m), v(&["Root/b.fx"]));
}

#[test]
fn state_transitions_and_status() {
    let mut st = EnbManager::initial_state();
    assert_eq!(st.active, "default");
    EnbManager::record_custom(&mut st, "Hope", Some("enb_custom_showcase.png".to_string()), v(&["Root/x"]));
    let s = EnbManager::get_status(&st, Some("installationFile=Hope ENB-97411-1-0.zip\n"), true, true, "/m");
    assert_eq!(s.default.name, "Hope ENB");
    assert_eq!(s.custom.as_ref().unwrap().name, "Hope");
    assert!(s.custom.as_ref().unwrap().has_showcase);
    assert_eq!(s.active, "custom");
    assert_eq!(s.deploy_path, "/m/Fallen World Optional Mods");
    assert_eq!(EnbManager::forget_custom(&mut st), Some("enb_custom_showcase.png".to_string()));
    EnbManager::record_disabled(&mut st);
    let s = EnbManager::get_status(&st, None, false, false, "/m/");
    assert_eq!(s.default.name, "Default ENB");
    assert_eq!(s.deploy_path, "/m/Fallen World Optional Mods");
    assert!(s.custom.is_none());
    assert_eq!(s.active, "default");
    st.active = "weird".to_string();
    assert_eq!(EnbManager::get_status(&st, None, false, false, "").active, "default");
}

#[test]
fn messages() {
    assert_eq!(EnbManager::apply_default(Ok(12)).message, "Default ENB applied (12 files).");
    assert_eq!(EnbManager::install_custom(" Hope ", Ok(3)).message, "Installed custom ENB ' Hope ' (3 files).");
    assert_eq!(EnbManager::disable_enb(Ok(0)).message, "ENB disabled (0 files removed from Optional Mods).");
    assert_eq!(EnbManager::save_config(Ok(2)).message, "Saved 2 setting(s) to enbseries.ini.");
    let e = EnbManager::remove_custom(Err("boom".to_string()));
    assert!(!e.success);
    assert_eq!(e.message, "boom");
    assert_eq!(EnbManager::custom_name("  "), Err("Please provide a name for the ENB.".to_string()));
    assert_eq!(EnbManager::custom_name(" Hope "), Ok("Hope".to_string()));
}

#[test]
fn showcase_urls() {
    assert_eq!(EnbManager::showcase("/x/Showcase.png", Some(b"hi")), "data:image/png;base64,aGk=");
    assert_eq!(EnbManager::showcase("/x/a.JPG", Some(b"hi")), "data:image/jpeg;base64,aGk=");
    assert_eq!(EnbManager::showcase("/x/.webp", Some(b"hi")), "data:image/png;base64,aGk=");
    assert_eq!(EnbManager::showcase("/x/a.webp", None), "");
    assert_eq!(EnbManager::base64(b"foo"), "Zm9v");
}

#[test]
fn config_edits_keep_layout() {
    let content = "[EFFECT]\r\n  EnableBloom=false\r\n; c\r\nOther=1\r\n[Bloom]\r\nAmountDay=1.0";
    let changes = vec![
        EnbIniChange { section: "effect".to_string(), key: "enablebloom".to_string(), value: "true".to_string() },
        EnbIniChange { section: "bloom".to_string(), key: "AMOUNTDAY".to_string(), value: "2.5".to_string() },
        EnbIniChange { section: "x".to_string(), key: "Other".to_string(), value: "9".to_string() },
    ];
    let (n, out) = EnbManager::apply_changes(content, &changes);
    assert_eq!(n, 2);
    assert_eq!(out, "[EFFECT]\r\n  EnableBloom=true\r\n; c\r\nOther=1\r\n[Bloom]\r\nAmountDay=2.5");
}

#[test]
fn summarize_reads_switches_numbers_and_values() {
    let content = "[Effect]\nEnableBloom=TRUE\nenablelens=false\n[COLORCORRECTION]\nBrightness = 1.5\n[Bloom]\nAmountDay=0.8\n";
    let s = EnbManager::summarize(content);
    assert_eq!(s.brightness, Some("1.5".to_string()));
    assert_eq!(s.gamma, None);
    assert!(s.enable_bloom);
    assert!(!s.enable_lens);
    assert!(!s.enable_dof);
    assert!(matches!(s.bloom, EnbAmount::On(Some(ref v)) if v == "0.8"));
    assert!(matches!(s.lens, EnbAmount::Off));
    assert_eq!(s.effects.len(), 8);
    assert_eq!(s.effects[0].name, "Bloom");
    assert!(s.effects[0].enabled);
    assert_eq!(s.effects[7].name, "Subsurface Scattering");
    assert_eq!(s.values.len(), 4);
    assert_eq!(s.values.get("effect|enablebloom"), Some(&"TRUE".to_string()));
    assert_eq!(s.values.get("colorcorrection|brightness"), Some(&"1.5".to_string()));
    assert_eq!(s.settings.get("bloom").and_then(|b| b.get("amountday")), Some(&"0.8".to_string()));
}

#[test]
fn detect_showcase_takes_the_first_largest_image() {
    let e = |n: &str, f: bool, s: u64| (n.to_string(), f, s);
    let entries = vec![
        e("readme.txt", true, 900),
        e("a.png", true, 10),
        e("b.JPG", true, 50),
        e("dir.png", false, 99),
        e("c.webp", true, 50),
    ];
    assert_eq!(EnbManager::detect_showcase(&entries), Some(2));
    assert_eq!(EnbManager::detect_showcase(&vec![e("x.bmp", true, 5)]), None);
}

#[test]
fn showcase_file_name_lowercases_the_extension() {
    assert_eq!(EnbManager::showcase_file_name(Some("JPG")), "enb_custom_showcase.jpg");
    assert_eq!(EnbManager::showcase_file_name(None), "enb_custom_showcase.png");
}

#[test]
fn save_config_edit_changes_matching_keys_only() {
    let ch = |s: &str, k: &str, v: &str| EnbIniChange { section: s.to_string(), key: k.to_string(), value: v.to_string() };
    let changes = vec![ch("bloom", "amountday", "2.5"), ch("Bloom", "Missing", "3")];
    let r = EnbManager::save_config_edit(Some(Ok("[Bloom]\r\n  AmountDay=1.0\r\n;x\r\n".to_string())), &changes);
    assert_eq!(r, Ok((1, "[Bloom]\r\n  AmountDay=2.5\r\n;x\r\n".to_string())));
    assert_eq!(EnbManager::save_config(Ok(1)).message, "Saved 1 setting(s) to enbseries.ini.");
    assert_eq!(
        EnbManager::save_config_edit(None, &changes),
        Err("enbseries.ini not found for the active ENB.".to_string())
    );
    assert_eq!(
        EnbManager::save_config_edit(Some(Err("denied".to_string())), &changes),
        Err("Cannot read enbseries.ini: denied".to_string())
    );
}

#[test]
fn install_custom_refuses_a_blank_name() {
    let r = EnbManager::install_custom("   ", Ok(4));
    assert!(!r.success);
    assert_eq!(r.message, "Please provide a name for the ENB.");
}

#[test]
fn enb_folders_sit_in_the_mods_folder() {
    assert_eq!(EnbManager::deploy_dir_of("/mods"), "/mods/Fallen World Optional Mods");
    assert_eq!(EnbManager::default_dir_of("/mods/"), "/mods/Fallen World FOMOD Resources/ENBs");
}
