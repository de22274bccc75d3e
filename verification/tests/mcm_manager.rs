use fallen_world_launcher::models::IniConfig;
use fallen_world_launcher::services::ini_manager::IniManager;
use fallen_world_launcher::services::mcm_manager::{McmManager, McmPreset};
use fallen_world_launcher::string_map::StringMap;

#[test]
fn test_preset_name_validation() {
    let bad_names = vec!["../../../etc/passwd", "preset/bad", "preset\\bad", ""];
    for name in bad_names {
        assert!(name.is_empty() || name.contains("..") || name.contains("/") || name.contains("\\"));
        assert!(McmManager::load_preset_path(name, "/game").is_err());
        assert!(McmManager::save_preset_path(name, "/game").is_err());
    }
}

#[test]
fn test_mcm_settings_merging() {
    let mut config = IniConfig { sections: StringMap::new() };
    IniManager::set_value(&mut config, "Graphics", "Key1", "Value1");
    let mut section = StringMap::new();
    section.insert("Key2".to_string(), "Value2".to_string());
    let mut settings = StringMap::new();
    settings.insert("Graphics".to_string(), section);
    let preset = McmPreset { name: "P".to_string(), settings, created_date: "d".to_string() };
    McmManager::apply_preset(&preset, &mut config);
    assert_eq!(config.sections.get("Graphics").unwrap().len(), 2);
    assert_eq!(IniManager::get_value(&config, "Graphics", "Key2"), Some("Value2".to_string()));
}

#[test]
fn test_empty_preset_name_rejected() {
    assert_eq!(McmManager::load_preset_path("", "/g").unwrap_err(), "Preset name cannot be empty");
    assert_eq!(McmManager::save_preset_path("   ", "/g").unwrap_err(), "Preset name cannot be empty");
    assert_eq!(McmManager::delete_preset_path("", "/g").unwrap_err(), "Preset name cannot be empty");
}

#[test]
fn preset_paths_and_errors() {
    assert_eq!(McmManager::load_preset_path("Mine", "/g").unwrap(), "/g/MCM Settings/Mine.json");
    assert_eq!(McmManager::load_preset_path("a/b", "/g").unwrap_err(), "Invalid preset name");
    assert_eq!(
        McmManager::save_preset_path("..x", "/g").unwrap_err(),
        "Preset name cannot contain path separators"
    );
    let files = vec!["/g/MCM Settings/Mine.json".to_string()];
    assert_eq!(McmManager::preset_exists("Mine", "/g", &files), Ok(true));
    assert_eq!(McmManager::preset_exists("Other", "/g", &files), Ok(false));
    assert!(McmManager::preset_exists("", "/g", &files).is_err());
}

#[test]
fn current_settings_from_ini_text() {
    let s = McmManager::get_current_settings("; c\ntop=1\n[Display]\n iSize = 3 \n[Empty]\nnoeq\n[Display]\nb=x=y\n");
    assert_eq!(s.get("").unwrap().get("top"), Some(&"1".to_string()));
    let d = s.get("Display").unwrap();
    assert_eq!(d.get("iSize"), Some(&"3".to_string()));
    assert_eq!(d.get("b"), Some(&"x=y".to_string()));
    assert!(s.get("Empty").is_none());
}

#[test]
fn preset_info_passes_name_and_date() {
    let p = McmPreset { name: "N".to_string(), settings: StringMap::new(), created_date: "2026".to_string() };
    assert_eq!(McmManager::get_preset_info(Ok(p)), Ok(("N".to_string(), "2026".to_string())));
    assert_eq!(McmManager::get_preset_info(Err("Preset not found: N".to_string())), Err("Preset not found: N".to_string()));
}
