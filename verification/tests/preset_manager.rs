use fallen_world_launcher::services::preset_manager::PresetManager;

#[test]
fn test_validate_preset_name() {
    let bad_names = vec!["../../../etc/passwd", "preset/bad", "preset\\bad"];
    for name in bad_names {
        assert!(name.contains("..") || name.contains("/") || name.contains("\\"));
        assert_eq!(PresetManager::source_dir(name, "ENB", "/mods").unwrap_err(), "Invalid preset name");
    }
}

#[test]
fn test_enb_path_construction() {
    let mods_folder = "/mods";
    let expected = "/mods/Fallen World FOMOD Resources/ENBs/Root/ENBPresets";
    let actual = PresetManager::presets_dir(mods_folder, "ENB").unwrap();
    assert_eq!(actual, expected);
}

#[test]
fn test_reshade_path_construction() {
    let mods_folder = "/mods";
    let expected = "/mods/Fallen World FOMOD Resources/ReshadeSetup/Root/ReshadePresets";
    let actual = PresetManager::presets_dir(mods_folder, "ReShade").unwrap();
    assert_eq!(actual, expected);
}

#[test]
fn test_preset_type_case_insensitive() {
    let types = vec!["ENB", "enb", "Enb", "ReShade", "reshade", "RESHADE"];
    for preset_type in types {
        assert!(preset_type.eq_ignore_ascii_case("ENB") || preset_type.eq_ignore_ascii_case("ReShade"));
        assert!(PresetManager::presets_dir("/m", preset_type).is_ok());
    }
    assert_eq!(
        PresetManager::presets_dir("/m", "Other").unwrap_err(),
        "Invalid preset type: must be ENB or ReShade"
    );
}

#[test]
fn install_locations() {
    assert_eq!(
        PresetManager::source_dir("Cine", "reshade", "/m").unwrap(),
        "/m/Fallen World FOMOD Resources/ReshadeSetup/Root/ReshadePresets/Cine"
    );
    assert_eq!(PresetManager::source_dir("Cine", "x", "/m").unwrap_err(), "Invalid preset type");
    assert_eq!(PresetManager::install_dir("/g", "enb"), "/g/ENBSeries");
    assert_eq!(PresetManager::install_dir("/g", "anything"), "/g/Reshade");
    assert_eq!(PresetManager::installed_path("/g", "ENB", "P"), "/g/ENBSeries/P");
}

#[test]
fn base64_and_preview_urls() {
    assert_eq!(PresetManager::encode_base64(b""), "");
    assert_eq!(PresetManager::encode_base64(b"f"), "Zg==");
    assert_eq!(PresetManager::encode_base64(b"fo"), "Zm8=");
    assert_eq!(PresetManager::encode_base64(b"foo"), "Zm9v");
    assert_eq!(PresetManager::encode_base64(b"foobar"), "Zm9vYmFy");
    assert_eq!(PresetManager::encode_base64(&[0xff, 0xfe, 0x00, 0x3e]), "//4APg==");
    assert_eq!(PresetManager::preview_data_url(Some(b"hi"), false), Some("data:image/png;base64,aGk=".to_string()));
    assert_eq!(PresetManager::preview_data_url(Some(b"hi"), true), Some("data:image/jpeg;base64,aGk=".to_string()));
    assert_eq!(PresetManager::preview_data_url(None, true), None);
}

#[test]
fn listed_presets_are_sorted_with_previews() {
    let entries = vec![
        ("Vivid".to_string(), false, vec![1u8, 2]),
        ("Classic".to_string(), true, vec![]),
    ];
    let presets = PresetManager::list_presets("ENB", &entries);
    assert_eq!(presets.len(), 2);
    assert_eq!(presets[0].name, "Classic");
    assert!(presets[0].installed);
    assert_eq!(presets[0].preview_image, None);
    assert_eq!(presets[1].name, "Vivid");
    assert_eq!(presets[1].preview_image, Some(vec![1u8, 2]));
    assert_eq!(presets[1].preset_type, "ENB");
}

#[test]
fn active_preset_is_first_visible_folder() {
    let entries = vec![
        (".cache".to_string(), true),
        ("enbseries.ini".to_string(), false),
        ("Classic".to_string(), true),
    ];
    assert_eq!(PresetManager::active_preset(&entries), Some("Classic".to_string()));
    assert_eq!(PresetManager::active_preset(&vec![]), None);
}
