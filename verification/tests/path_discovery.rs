use fallen_world_launcher::services::path_discovery::PathDiscoveryService;

fn s(v: &[&str]) -> Vec<String> {
    v.iter().map(|x| x.to_string()).collect()
}

#[test]
fn test_discover_paths() {
    // Nothing is configured on this machine: no launcher folder and no saved path.
    match PathDiscoveryService::discover(None, None, None, None, false, false) {
        Ok(paths) => {
            println!("Game root: {:?}", paths.game_root);
            println!("Mods folder: {:?}", paths.mods_folder);
            println!("MO2 root: {:?}", paths.mo2_root);
            println!("MO2 profile: {:?}", paths.mo2_profile);
            assert!(!paths.game_root.is_empty());
        }
        Err(e) => println!("Discovery error: {}", e),
    }
}

#[test]
fn mo2_root_prefers_registry_then_candidates() {
    let existing = s(&["/reg", "/c2/ModOrganizer.exe"]);
    assert_eq!(PathDiscoveryService::find_mo2_root(Some("/reg"), &s(&["/c1", "/c2"]), &existing), Some("/reg".to_string()));
    assert_eq!(PathDiscoveryService::find_mo2_root(Some("/gone"), &s(&["/c1", "/c2"]), &existing), Some("/c2".to_string()));
    assert_eq!(PathDiscoveryService::find_mo2_root(None, &s(&["/c1"]), &existing), None);
}

#[test]
fn mo2_search_dirs_in_home() {
    assert_eq!(PathDiscoveryService::mo2_search_dirs("/home/u"), s(&["/home/u/Games", "/home/u/games", "/home/u/.local/share"]));
}

#[test]
fn mo2_near_game_checks_each_level_then_its_folders() {
    let levels = vec![
        ("/a/b".to_string(), s(&["game", "tools"])),
        ("/a".to_string(), s(&["b", "MO2"])),
    ];
    let existing = s(&["/a/MO2/ModOrganizer.exe"]);
    assert_eq!(PathDiscoveryService::find_mo2_near(&levels, &existing), Some("/a/MO2".to_string()));
    let existing2 = s(&["/a/b/ModOrganizer.exe", "/a/MO2/ModOrganizer.exe"]);
    assert_eq!(PathDiscoveryService::find_mo2_near(&levels, &existing2), Some("/a/b".to_string()));
    assert_eq!(PathDiscoveryService::find_mo2_near(&levels, &[]), None);
}
