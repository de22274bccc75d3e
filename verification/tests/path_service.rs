use fallen_world_launcher::models::GamePaths;
use fallen_world_launcher::services::path_service::PathService;
use fallen_world_launcher::services::platform::Platform;

#[test]
fn proton_documents_folder_is_found_under_home() {
    let doc = "/home/u/.steam/steamapps/compatdata/287860/pfx/drive_c/Users/steamuser/My Documents/My Games/Fallout4";
    let existing = vec![doc.to_string()];
    let p = PathService::discover_game_paths(Some("/home/u"), &existing).unwrap();
    assert_eq!(p.game_root, doc);
    assert!(PathService::discover_game_paths(Some("/home/u"), &[]).is_none());
    assert!(PathService::discover_game_paths(None, &existing).is_none());
}

#[test]
fn all_paths_must_exist() {
    let p = GamePaths {
        game_root: "/g".to_string(),
        mods_folder: "/g/mods".to_string(),
        ini_file: "/g/Fallout4.ini".to_string(),
        ini_prefs_file: "/g/Fallout4Prefs.ini".to_string(),
        plugins_file: "/g/plugins.txt".to_string(),
        load_order_file: "/g/loadorder.txt".to_string(),
    };
    let all: Vec<String> = vec!["/g", "/g/mods", "/g/Fallout4.ini", "/g/Fallout4Prefs.ini", "/g/plugins.txt", "/g/loadorder.txt"]
        .into_iter()
        .map(String::from)
        .collect();
    assert!(PathService::validate_paths(&p, &all));
    assert!(!PathService::validate_paths(&p, &all[1..]));
}

#[test]
fn release_asset_off_windows() {
    assert_eq!(Platform::release_asset_name(false), "Launcher");
    assert_eq!(Platform::release_asset_name(true), "Launcher.exe");
}
