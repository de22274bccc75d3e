use fallen_world_launcher::services::mod_detector::ModDetector;

#[test]
fn test_folder_to_display_name() {
    assert_eq!(ModDetector::folder_to_display_name("My_Awesome_Mod"), "My Awesome Mod");
    assert_eq!(ModDetector::folder_to_display_name("test-mod"), "Test Mod");
    assert_eq!(ModDetector::folder_to_display_name("Fallout4"), "Fallout4");
}

#[test]
fn test_is_special_folder() {
    assert!(ModDetector::is_special_folder("Overwrite"));
    assert!(ModDetector::is_special_folder("Downloads"));
    assert!(!ModDetector::is_special_folder("My Mod"));
}

#[test]
fn test_parse_modlist_line_enabled() {
    let result = ModDetector::parse_modlist_line("+My Awesome Mod");
    assert_eq!(result, Some("My Awesome Mod".to_string()));
}

#[test]
fn test_parse_modlist_line_disabled() {
    let result = ModDetector::parse_modlist_line("-My Awesome Mod");
    assert_eq!(result, None);
}

#[test]
fn test_parse_modlist_line_empty() {
    assert_eq!(ModDetector::parse_modlist_line(""), None);
    assert_eq!(ModDetector::parse_modlist_line("   "), None);
}

#[test]
fn test_parse_modlist_line_invalid() {
    assert_eq!(ModDetector::parse_modlist_line("No Prefix Mod"), None);
    assert_eq!(ModDetector::parse_modlist_line("+"), None);
}

#[test]
fn test_parse_modlist_line_whitespace() {
    let result = ModDetector::parse_modlist_line("  +Trimmed Mod  ");
    assert_eq!(result, Some("Trimmed Mod".to_string()));
}

#[test]
fn repeated_plus_signs_are_all_stripped() {
    assert_eq!(ModDetector::parse_modlist_line("++ Double"), Some("Double".to_string()));
}

#[test]
fn display_name_collapses_separators_and_capitalises() {
    assert_eq!(ModDetector::folder_to_display_name("__a--b  c_"), "A B C");
    assert_eq!(ModDetector::folder_to_display_name(""), "");
    assert_eq!(ModDetector::folder_to_display_name("straße"), "Straße");
}

#[test]
fn enabled_mods_and_load_order_from_modlist() {
    let txt = "# header\n+Alpha\n-Beta\n*DLC\n+ \n+Gamma\n";
    assert_eq!(ModDetector::enabled_mods(txt), vec!["Alpha".to_string(), "Gamma".to_string()]);
    assert_eq!(
        ModDetector::get_load_order(Some(txt)),
        vec!["Alpha".to_string(), "Beta".to_string(), "Gamma".to_string()]
    );
    assert!(ModDetector::get_load_order(None).is_empty());
}

#[test]
fn installed_mod_list_skips_special_folders() {
    let folders = vec!["Overwrite".to_string(), "Cool Mod".to_string(), "node_modules".to_string()];
    let mods = ModDetector::get_installed_mod_list(&folders);
    assert_eq!(mods.len(), 1);
    assert_eq!(mods[0].id, "Cool Mod");
    assert_eq!(mods[0].name, "Cool Mod");
    assert_eq!(mods[0].version, "1.0.0");
}
