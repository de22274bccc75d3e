use fallen_world_launcher::services::profile_manager::ProfileManager;

#[test]
fn profile_names_are_checked() {
    assert!(ProfileManager::validate_name("Fallen World").is_ok());
    assert_eq!(ProfileManager::validate_name(""), Err("Profile name cannot be empty".to_string()));
    assert_eq!(ProfileManager::validate_name("a/b"), Err("Profile name contains invalid characters".to_string()));
}

#[test]
fn profiles_folder_needs_mo2() {
    assert_eq!(ProfileManager::profiles_dir_of("/mo2"), "/mo2/profiles");
    assert_eq!(ProfileManager::get_profiles_dir(None, false), Err("Mod Organizer 2 not detected".to_string()));
}

#[test]
fn enabled_mods_come_from_plus_lines() {
    let mods = ProfileManager::read_enabled_mods(Some("# c\n+A\n-B\n+ C \n"));
    assert_eq!(mods, vec!["A".to_string(), "C".to_string()]);
    assert!(ProfileManager::read_enabled_mods(None).is_empty());
}

#[test]
fn loading_a_profile_marks_the_active_one() {
    let p = ProfileManager::load_profile("Fallen", true, Some("Fallen"), "c".to_string(), "m".to_string(), Some("+X\n"))
        .ok()
        .unwrap();
    assert!(p.is_active);
    assert_eq!(p.enabled_mods, vec!["X".to_string()]);
    assert_eq!(p.created_date, "c");
    let missing = ProfileManager::load_profile("Nope", false, None, String::new(), String::new(), None);
    assert_eq!(missing.err(), Some("Profile 'Nope' not found".to_string()));
}

#[test]
fn deleting_the_active_profile_is_refused() {
    assert_eq!(
        ProfileManager::delete_profile("A", Some("A"), Ok("/p".to_string()), true),
        Err("Cannot delete the currently active profile \u{2014} activate another profile first.".to_string())
    );
    assert_eq!(ProfileManager::delete_profile("B", Some("A"), Ok("/p".to_string()), true), Ok("/p/B".to_string()));
    assert_eq!(ProfileManager::delete_profile("  ", None, Ok("/p".to_string()), true), Err("Profile name cannot be empty".to_string()));
}

#[test]
fn renaming_the_source_profile_is_refused() {
    let r = ProfileManager::rename_profile("fallen world", "X", None, Ok("/p".to_string()), true, false);
    assert_eq!(r, Err("The 'Fallen World' profile is the source of truth and cannot be renamed.".to_string()));
}

#[test]
fn selecting_a_profile_rewrites_mo2_ini() {
    let ini = "[General]\ngameName=Fallout 4\nselected_profile=@ByteArray(Old)\n";
    assert_eq!(
        ProfileManager::patch_selected_profile(ini, "New"),
        "[General]\ngameName=Fallout 4\nselected_profile=@ByteArray(New)\n"
    );
    assert_eq!(
        ProfileManager::patch_selected_profile("[Settings]\nx=1", "P"),
        "[Settings]\nx=1\n[General]\nselected_profile=@ByteArray(P)"
    );
    assert_eq!(
        ProfileManager::patch_selected_profile("[Settings]\nx=1\n", "P"),
        "[Settings]\nx=1\n[General]\nselected_profile=@ByteArray(P)\n"
    );
}

#[test]
fn profiles_list_active_first_then_by_name() {
    let folders = vec![
        ("Zed".to_string(), "c1".to_string(), "m1".to_string(), Some("+A\n".to_string())),
        ("Fallen World".to_string(), "c2".to_string(), "m2".to_string(), None),
        ("Alpha".to_string(), "c3".to_string(), "m3".to_string(), None),
    ];
    let list = ProfileManager::list_profiles(Some("Zed"), &folders);
    let names: Vec<&str> = list.iter().map(|p| p.name.as_str()).collect();
    assert_eq!(names, vec!["Zed", "Alpha", "Fallen World"]);
    assert!(list[0].is_active);
    assert_eq!(list[0].enabled_mods, vec!["A".to_string()]);
    assert_eq!(list[1].created_date, "c3");
}
