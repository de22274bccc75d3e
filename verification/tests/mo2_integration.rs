use fallen_world_launcher::services::mo2_integration::Mo2Integration;

fn names(v: &[&str]) -> Vec<String> {
    v.iter().map(|s| s.to_string()).collect()
}

#[test]
fn test_is_master_esm() {
    assert!(Mo2Integration::is_master_esm("fallout4.esm".to_string()));
    assert!(Mo2Integration::is_master_esm("dlcnukaworld.esm".to_string()));
    assert!(!Mo2Integration::is_master_esm("custom.esp".to_string()));
}

#[test]
fn new_plugins_go_after_masters_and_before_prp() {
    let content = "# header\n*Fallout4.esm\n*DLCRobot.esm\n*Other.esp\n*PRP.esp\n";
    let (changed, out) = Mo2Integration::add_plugins_to_file(content, &names(&["New.esp"]));
    assert!(changed);
    assert_eq!(out, "# header\n*Fallout4.esm\n*DLCRobot.esm\n*New.esp\n*Other.esp\n*PRP.esp\n");
}

#[test]
fn prp_before_masters_pulls_the_insertion_point_up() {
    let content = "*PRP.esp\n*Fallout4.esm";
    let (_, out) = Mo2Integration::add_plugins_to_file(content, &names(&["A.esp", "B.esp"]));
    assert_eq!(out, "*A.esp\n*B.esp\n*PRP.esp\n*Fallout4.esm\n");
}

#[test]
fn listed_plugins_are_enabled_in_place() {
    let content = "*Fallout4.esm\nMine.esp   \n*Done.esp\n";
    let (changed, out) = Mo2Integration::add_plugins_to_file(content, &names(&["mine.ESP"]));
    assert!(changed);
    assert_eq!(out, "*Fallout4.esm\n*Mine.esp\n*Done.esp\n");
    let (changed, _) = Mo2Integration::add_plugins_to_file(content, &names(&["Done.esp"]));
    assert!(!changed);
}

#[test]
fn a_listed_plugin_is_enabled_after_a_new_one_is_inserted_above_it() {
    let content = "Fallout4.esm\nZ.esp";
    let (changed, out) = Mo2Integration::add_plugins_to_file(content, &names(&["A.esp", "Z.esp"]));
    assert!(changed);
    assert_eq!(out, "Fallout4.esm\n*A.esp\n*Z.esp\n");
    let (_, twice) = Mo2Integration::add_plugins_to_file("", &names(&["A.esp", "a.ESP"]));
    assert_eq!(twice, "*A.esp\n");
}

#[test]
fn active_profile_from_ini() {
    assert_eq!(
        Mo2Integration::get_active_profile(Some("selected_profile=@ByteArray(Fallen World)\n")),
        Ok("Fallen World".to_string())
    );
    assert_eq!(Mo2Integration::get_active_profile(Some("  SELECTED_PROFILE = Default ; x")), Ok("Default".to_string()));
    assert_eq!(
        Mo2Integration::get_active_profile(Some("[General]\nselected_profile=Default")),
        Err("Could not determine active profile".to_string())
    );
    assert_eq!(Mo2Integration::get_active_profile(None), Err("ModOrganizer.ini not found".to_string()));
}

#[test]
fn enabling_needs_plugins_and_a_plugins_file() {
    assert_eq!(Mo2Integration::enable_plugins_in_mo2(&[], Err("x".to_string())), Ok((false, String::new())));
    assert_eq!(
        Mo2Integration::enable_plugins_in_mo2(&names(&["A.esp"]), Err("plugins.txt not found".to_string())),
        Err("plugins.txt not found".to_string())
    );
    assert_eq!(
        Mo2Integration::enable_plugins_in_mo2(&names(&["A.esp"]), Ok(String::new())),
        Ok((true, "*A.esp\n".to_string()))
    );
}

#[test]
fn collect_plugins_keeps_plugin_files_sorted() {
    let files = names(&["b.esp", "readme.txt", "A.ESM", ".esp", "c.Esl", "noext", "d.esp.bak"]);
    assert_eq!(Mo2Integration::collect_plugins(&files), names(&["A.ESM", "b.esp", "c.Esl"]));
    assert!(Mo2Integration::collect_plugins(&names(&["x.txt"])).is_empty());
}

#[test]
fn find_modlist_root_prefers_the_game_folders_parent() {
    assert_eq!(Mo2Integration::find_modlist_root(Some("/games/FO4"), Some("/home/u")), Ok("/games".to_string()));
    assert_eq!(
        Mo2Integration::find_modlist_root(Some("/FO4"), Some("/home/u")),
        Ok("/home/u/Fallout 4 Modlist".to_string())
    );
    assert_eq!(
        Mo2Integration::find_modlist_root(None, None),
        Err("Could not determine home directory".to_string())
    );
}
