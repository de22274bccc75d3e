use fallen_world_launcher::models::IniConfig;
use fallen_world_launcher::services::ini_manager::{IniChange, IniManager};
use fallen_world_launcher::string_map::StringMap;

#[test]
fn test_parse_ini_basic() {
    let content = "[Display]\niResolution=1920x1080\nbBorderless=1\n";
    let config = IniManager::parse_ini_content(content);

    assert_eq!(config.sections.len(), 1);
    assert_eq!(
        IniManager::get_value(&config, "Display", "iResolution"),
        Some("1920x1080".to_string())
    );
    assert_eq!(
        IniManager::get_value(&config, "Display", "bBorderless"),
        Some("1".to_string())
    );
}

#[test]
fn test_parse_ini_with_comments() {
    let content = "; Comment\n[Display]\n; Another comment\niResolution=1920x1080\n";
    let config = IniManager::parse_ini_content(content);

    assert_eq!(
        IniManager::get_value(&config, "Display", "iResolution"),
        Some("1920x1080".to_string())
    );
}

#[test]
fn test_parse_ini_multiple_sections() {
    let content = "[Display]\niResolution=1920x1080\n\n[Audio]\niMasterVolume=100\n";
    let config = IniManager::parse_ini_content(content);

    assert_eq!(config.sections.len(), 2);
    assert!(config.sections.contains_key("Display"));
    assert!(config.sections.contains_key("Audio"));
}

#[test]
fn test_parse_ini_with_quotes() {
    let content = "[Interface]\nsValue=\"My String Value\"\n";
    let config = IniManager::parse_ini_content(content);

    assert_eq!(
        IniManager::get_value(&config, "Interface", "sValue"),
        Some("My String Value".to_string())
    );
}

#[test]
fn test_parse_ini_whitespace() {
    let content = "  [Display]  \n  iResolution  =  1920x1080  \n";
    let config = IniManager::parse_ini_content(content);

    assert_eq!(
        IniManager::get_value(&config, "Display", "iResolution"),
        Some("1920x1080".to_string())
    );
}

#[test]
fn test_set_value_new_section() {
    let mut config = IniConfig {
        sections: StringMap::new(),
    };

    IniManager::set_value(&mut config, "Display", "iResolution", "3840x2160");

    assert_eq!(
        IniManager::get_value(&config, "Display", "iResolution"),
        Some("3840x2160".to_string())
    );
}

#[test]
fn test_set_value_existing_section() {
    let mut sections = StringMap::new();
    let mut display = StringMap::new();
    display.insert("iResolution".to_string(), "1920x1080".to_string());
    sections.insert("Display".to_string(), display);

    let mut config = IniConfig { sections };

    IniManager::set_value(&mut config, "Display", "bBorderless", "1");

    assert_eq!(
        IniManager::get_value(&config, "Display", "iResolution"),
        Some("1920x1080".to_string())
    );
    assert_eq!(
        IniManager::get_value(&config, "Display", "bBorderless"),
        Some("1".to_string())
    );
}

#[test]
fn test_apply_preset_performance() {
    let mut config = IniConfig {
        sections: StringMap::new(),
    };

    IniManager::apply_preset(&mut config, "Performance").unwrap();

    assert_eq!(
        IniManager::get_value(&config, "Display", "iMaxAnisotropy"),
        Some("1".to_string())
    );
    assert_eq!(
        IniManager::get_value(&config, "Display", "iTexMipSkip"),
        Some("3".to_string())
    );
}

#[test]
fn test_apply_preset_ultra() {
    let mut config = IniConfig {
        sections: StringMap::new(),
    };

    IniManager::apply_preset(&mut config, "Ultra").unwrap();

    assert_eq!(
        IniManager::get_value(&config, "Display", "iMaxAnisotropy"),
        Some("16".to_string())
    );
    assert_eq!(
        IniManager::get_value(&config, "Display", "iTexMipSkip"),
        Some("0".to_string())
    );
}

#[test]
fn test_apply_preset_invalid() {
    let mut config = IniConfig {
        sections: StringMap::new(),
    };

    let result = IniManager::apply_preset(&mut config, "Invalid");
    assert!(result.is_err());
}

#[test]
fn unknown_preset_message_names_the_preset() {
    let mut config = IniConfig { sections: StringMap::new() };
    let result = IniManager::apply_preset(&mut config, "Invalid");
    assert_eq!(result, Err("Unknown preset: Invalid".to_string()));
    assert_eq!(config.sections.len(), 0);
}

#[test]
fn set_then_get_returns_written_value() {
    let mut config = IniManager::parse_ini_content("[Display]\niSize W=800\niSize H=600\n");
    IniManager::set_value(&mut config, "Display", "iSize W", "1920");
    assert_eq!(IniManager::get_value(&config, "Display", "iSize W"), Some("1920".to_string()));
    assert_eq!(IniManager::get_value(&config, "Display", "iSize H"), Some("600".to_string()));
    assert_eq!(IniManager::get_value(&config, "Audio", "iSize W"), None);
}

#[test]
fn keys_before_any_section_go_to_unnamed_section() {
    let config = IniManager::parse_ini_content("a=1\r\n[S]\r\nb = \"x\"\r\nnovalue\r\n");
    assert_eq!(IniManager::get_value(&config, "", "a"), Some("1".to_string()));
    assert_eq!(IniManager::get_value(&config, "S", "b"), Some("x".to_string()));
    assert_eq!(IniManager::get_value(&config, "S", "novalue"), None);
}

#[test]
fn guard_filename_accepts_only_known_files() {
    assert!(IniManager::guard_filename("Fallout4Prefs.ini").is_ok());
    assert_eq!(
        IniManager::guard_filename("evil.ini"),
        Err("Unsupported INI file: evil.ini".to_string())
    );
}

#[test]
fn test_serialize_ini() {
    let mut sections = StringMap::new();
    let mut display = StringMap::new();
    display.insert("iResolution".to_string(), "1920x1080".to_string());
    sections.insert("Display".to_string(), display);

    let config = IniConfig { sections };
    let output = IniManager::serialize_ini(&config);

    assert!(output.contains("[Display]"));
    assert!(output.contains("iResolution=1920x1080"));
}

#[test]
fn read_ini_merges_files_in_order() {
    let files = vec![
        (true, Some("[Display]\niSize W=1920\nbFull=1\n".to_string())),
        (false, None),
        (true, Some("[Display]\niSize W=2560\n[Audio]\nfVol=0.5\n".to_string())),
    ];
    let config = IniManager::read_ini("/ini", &files).unwrap();
    assert_eq!(IniManager::get_value(&config, "Display", "iSize W"), Some("2560".to_string()));
    assert_eq!(IniManager::get_value(&config, "Display", "bFull"), Some("1".to_string()));
    assert_eq!(IniManager::get_value(&config, "Audio", "fVol"), Some("0.5".to_string()));
    let none = vec![(false, None), (false, None)];
    assert_eq!(IniManager::read_ini("/ini", &none).err(), Some("No Fallout4 INI files found in /ini".to_string()));
    let unreadable = vec![(true, None)];
    assert_eq!(IniManager::read_ini("/ini", &unreadable).unwrap().sections.len(), 0);
}

#[test]
fn list_files_reports_found_ones() {
    let found = IniManager::list_files(&vec![Some(10), None, Some(3)]);
    assert_eq!(found.len(), 2);
    assert_eq!((found[0].name.as_str(), found[0].size), ("Fallout4.ini", 10));
    assert_eq!((found[1].name.as_str(), found[1].size), ("Fallout4Custom.ini", 3));
}

#[test]
fn save_changes_with_repeated_keys_writes_the_last_value() {
    let change = |s: &str, k: &str, v: &str| IniChange { section: s.to_string(), key: k.to_string(), value: v.to_string() };
    let out = IniManager::save_changes(
        "Fallout4Prefs.ini",
        "[Display]\niSize W=800\n",
        &[change("Display", "iSize W", "1024"), change("display", "isize w", "1280")],
    );
    assert_eq!(out, Ok("[Display]\niSize W=1280\n".to_string()));
    let out = IniManager::save_changes("Fallout4.ini", "[Display]\n", &[change("Display", "a", "1"), change("Display", "a", "2")]);
    assert_eq!(out, Ok("[Display]\na=1\na=2\n".to_string()));
}

#[test]
fn serialized_config_reads_back_the_same() {
    let mut sections = StringMap::new();
    let mut display = StringMap::new();
    display.insert("iSizeW".to_string(), "1920".to_string());
    display.insert("bFull".to_string(), "1".to_string());
    sections.insert("Display".to_string(), display);
    sections.insert("Empty".to_string(), StringMap::new());
    let mut audio = StringMap::new();
    audio.insert("fVol".to_string(), "0.5".to_string());
    sections.insert("Audio".to_string(), audio);
    let config = IniConfig { sections };
    let text = IniManager::serialize_ini(&config);
    assert_eq!(text, "[Audio]\nfVol=0.5\n\n[Display]\nbFull=1\niSizeW=1920\n\n[Empty]\n\n");
    let back = IniManager::parse_ini_content(&text);
    for (s, k, v) in [("Audio", "fVol", "0.5"), ("Display", "bFull", "1"), ("Display", "iSizeW", "1920")] {
        assert_eq!(IniManager::get_value(&back, s, k), Some(v.to_string()));
    }
    assert_eq!(back.sections.len(), 3);
    assert_eq!(back.sections.get("Empty").map(|m| m.len()), Some(0));
}

#[test]
fn lone_quote_values_are_not_parsable() {
    assert!(IniManager::is_parsable("[A]\nk=\"v\"\n; x=\"\n[\"]\nnoequals\"\n"));
    assert!(!IniManager::is_parsable("[A]\nk = \" \n"));
    assert!(!IniManager::is_parsable("k=\""));
}
