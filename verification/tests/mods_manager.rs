use fallen_world_launcher::services::mods_manager::ModsManager;
use fallen_world_launcher::services::path_discovery::GamePaths;

const MODLIST: &str = "# This file was automatically generated\n*DLCRobot.esm\n+Base Mod\n-Optional Mod\n+Gameplay_separator\n+ \n\n";

#[test]
fn list_reads_enabled_disabled_and_separators() {
    let user = vec!["Optional Mod".to_string()];
    let mods = ModsManager::list(MODLIST, &user);
    assert_eq!(mods.len(), 3);
    assert_eq!(mods[0].name, "Base Mod");
    assert!(mods[0].enabled && !mods[0].is_user && !mods[0].is_separator);
    assert_eq!(mods[1].name, "Optional Mod");
    assert!(!mods[1].enabled && mods[1].is_user);
    assert_eq!(mods[2].name, "Gameplay_separator");
    assert!(mods[2].is_separator);
}

#[test]
fn set_enabled_rewrites_only_the_sign() {
    let out = ModsManager::set_enabled(MODLIST, "Optional Mod", true).unwrap();
    assert_eq!(
        out,
        "# This file was automatically generated\n*DLCRobot.esm\n+Base Mod\n+Optional Mod\n+Gameplay_separator\n+ \n"
    );
    let back = ModsManager::list(&out, &[]);
    assert!(back.iter().all(|m| m.enabled));
}

#[test]
fn set_enabled_unknown_mod_is_an_error() {
    assert_eq!(
        ModsManager::set_enabled(MODLIST, "Missing", false),
        Err("Mod not found in modlist: Missing".to_string())
    );
}

#[test]
fn move_mod_swaps_with_neighbouring_mod_line() {
    let content = "+A\n# note\n+B\n+C";
    assert_eq!(ModsManager::move_mod(content, "B", true).unwrap(), Some("+B\n# note\n+A\n+C\n".to_string()));
    assert_eq!(ModsManager::move_mod(content, "B", false).unwrap(), Some("+A\n# note\n+C\n+B\n".to_string()));
    assert_eq!(ModsManager::move_mod(content, "A", true).unwrap(), None);
    assert_eq!(ModsManager::move_mod(content, "C", false).unwrap(), None);
    assert_eq!(ModsManager::move_mod(content, "Z", true), Err("Mod not found in modlist: Z".to_string()));
}

#[test]
fn install_name_tags_once() {
    assert_eq!(ModsManager::install_name("My Mod"), "[NoDelete] My Mod");
    assert_eq!(ModsManager::install_name("[NoDelete] My Mod"), "[NoDelete] My Mod");
    assert_eq!(ModsManager::install_name("[NoDelete][NoDelete]  X "), "[NoDelete] X");
    let once = ModsManager::install_name("Y");
    assert_eq!(ModsManager::install_name(&once), once);
}

#[test]
fn append_goes_before_trailing_blank_lines() {
    let out = ModsManager::append_to_modlist("+A\n-B\n\n\n", "[NoDelete] New").unwrap();
    assert_eq!(out, "+A\n-B\n+[NoDelete] New\n\n");
    assert_eq!(ModsManager::append_to_modlist(&out, "[NoDelete] New"), None);
    assert_eq!(ModsManager::append_to_modlist("", "N"), Some("+N\n".to_string()));
}

#[test]
fn user_mods_are_recorded_once() {
    let (list, added) = ModsManager::with_user_mod(vec!["A".to_string()], "B");
    assert!(added);
    assert_eq!(list, vec!["A".to_string(), "B".to_string()]);
    let (list2, added2) = ModsManager::with_user_mod(list, "A");
    assert!(!added2);
    assert_eq!(list2.len(), 2);
}

#[test]
fn writes_are_refused_while_mo2_runs() {
    assert!(ModsManager::ensure_mo2_closed(false).is_ok());
    let e = ModsManager::ensure_mo2_closed(true).unwrap_err();
    assert!(e.starts_with("Mod Organizer 2 is running."));
}

#[test]
fn modlist_path_needs_root_and_profile() {
    let mut paths = GamePaths {
        game_root: "/g".to_string(),
        mods_folder: "/g/mods".to_string(),
        mo2_root: None,
        mo2_profile: None,
        ini_folder: "/g".to_string(),
    };
    assert_eq!(ModsManager::modlist_path(&paths), Err("Mod Organizer 2 not detected".to_string()));
    paths.mo2_root = Some("/mo2".to_string());
    assert_eq!(ModsManager::modlist_path(&paths), Err("No active MO2 profile".to_string()));
    paths.mo2_profile = Some("Default".to_string());
    assert_eq!(ModsManager::modlist_path(&paths), Ok("/mo2/profiles/Default/modlist.txt".to_string()));
}

#[test]
fn archive_root_is_single_folder_or_archive_name() {
    let single = vec![("Inner".to_string(), true)];
    assert_eq!(ModsManager::archive_mod_root(&single, Some("pack")), (true, "Inner".to_string()));
    let loose = vec![("a.esp".to_string(), false)];
    assert_eq!(ModsManager::archive_mod_root(&loose, Some("pack")), (false, "pack".to_string()));
    assert_eq!(ModsManager::archive_mod_root(&vec![], None), (false, "Added Mod".to_string()));
}

#[test]
fn is_zip_needs_a_file_with_a_zip_extension() {
    assert!(ModsManager::is_zip(true, "Mod.ZIP"));
    assert!(ModsManager::is_zip(true, "a.b.zip"));
    assert!(!ModsManager::is_zip(false, "Mod.zip"));
    assert!(!ModsManager::is_zip(true, ".zip"));
    assert!(!ModsManager::is_zip(true, "zip"));
    assert!(!ModsManager::is_zip(true, "mod.7z"));
}
