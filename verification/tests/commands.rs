use fallen_world_launcher::commands::debug::run_diagnostics;
use fallen_world_launcher::commands::fomod::{
    base64_encode, image_data_url, image_file, install_outcome, prepare_install, to_selections, wizard_steps,
    SelectionItem,
};
use fallen_world_launcher::commands::profiles::{backup_saves_destination, backup_saves_outcome, backup_saves_source};
use fallen_world_launcher::models::Mod;
use fallen_world_launcher::services::fomod_service::FomodService;
use fallen_world_launcher::services::path_discovery::GamePaths;

fn paths(profile: Option<&str>) -> GamePaths {
    GamePaths {
        game_root: "/g".to_string(),
        mods_folder: "/mo2/mods".to_string(),
        mo2_root: Some("/mo2".to_string()),
        mo2_profile: profile.map(|p| p.to_string()),
        ini_folder: "/g".to_string(),
    }
}

#[test]
fn image_paths_stay_inside_the_resources_folder() {
    assert_eq!(
        image_file("/mods", "fomod\\images\\\\a.png").unwrap(),
        "/mods/Fallen World FOMOD Resources/fomod/images/a.png"
    );
    assert_eq!(image_file("/mods", "../x.png"), Err("Invalid image path".to_string()));
}

#[test]
fn image_data_urls_carry_the_media_type() {
    assert_eq!(image_data_url(Some("JPG"), b"Ma"), "data:image/jpeg;base64,TWE=");
    assert_eq!(image_data_url(Some("webp"), b""), "data:image/webp;base64,");
    assert_eq!(image_data_url(None, b"M"), "data:image/png;base64,TQ==");
    assert_eq!(base64_encode(b"Man"), "TWFu");
}

#[test]
fn selections_keep_their_indices() {
    let items = vec![
        SelectionItem { step_index: 0, group_index: 1, plugin_indices: vec![2, 3] },
        SelectionItem { step_index: 4, group_index: 0, plugin_indices: vec![] },
    ];
    let sel = to_selections(items);
    assert_eq!(sel.len(), 2);
    assert_eq!((sel[0].step_index, sel[0].group_index), (0, 1));
    assert_eq!(sel[0].plugin_indices, vec![2, 3]);
    assert_eq!(sel[1].step_index, 4);
}

const XML: &str = r#"<config><installSteps>
<installStep name="Final Touches"><optionalFileGroups><group name="g" type="SelectAny"><plugins><plugin name="p"><description>d</description></plugin></plugins></group></optionalFileGroups></installStep>
<installStep name="Extras"><optionalFileGroups><group name="Res" type="SelectExactlyOne"><plugins><plugin name="1080p"><description>HD</description></plugin></plugins></group></optionalFileGroups></installStep>
</installSteps></config>"#;

#[test]
fn install_preparation_checks_the_choices() {
    let all = FomodService::parse_xml(XML).unwrap();
    assert_eq!(all.len(), 2);
    let shown = wizard_steps(FomodService::parse_xml(XML).unwrap());
    assert_eq!(shown.len(), 1);
    assert_eq!(shown[0].name, "Extras");
    let ok = prepare_install(
        Ok(all),
        vec![SelectionItem { step_index: 0, group_index: 0, plugin_indices: vec![0] }],
    );
    let (steps, sel) = ok.ok().unwrap();
    assert_eq!(steps.len(), 1);
    assert_eq!(sel.len(), 1);
    let bad = prepare_install(
        FomodService::parse_xml(XML),
        vec![SelectionItem { step_index: 0, group_index: 0, plugin_indices: vec![5] }],
    );
    let o = bad.err().unwrap();
    assert!(!o.success);
    assert_eq!(o.message, "Invalid selections: Invalid plugin index in step 0, group 0: 5");
    let unparsed = prepare_install(Err("boom".to_string()), vec![]).err().unwrap();
    assert_eq!(unparsed.message, "Failed to parse FOMOD config: boom");
}

#[test]
fn install_outcome_messages() {
    let ok = install_outcome(Ok(()));
    assert!(ok.success);
    assert_eq!(ok.message, "FOMOD options installed successfully");
    assert_eq!(install_outcome(Err("disk full".to_string())).message, "Installation failed: disk full");
}

#[test]
fn diagnostics_report_lists_every_check() {
    let mods = vec![Mod {
        id: "a".to_string(),
        name: "A".to_string(),
        version: String::new(),
        author: String::new(),
        description: String::new(),
        enabled: true,
        load_order: 0,
        dependencies: vec![],
        conflicts: vec![],
        last_updated: String::new(),
    }];
    let report = run_diagnostics(
        (1920, 1080),
        "NVIDIA",
        125,
        &vec![],
        &Ok(paths(Some("Fallen"))),
        &Ok(mods),
        &None,
        "/logs/launcher.log",
        false,
        "2026-01-01 10:00:00",
    );
    assert_eq!(
        report,
        "✓ System Detection: Resolution 1920x1080, GPU: NVIDIA, Scale: 125%\n\
         ✓ No blocking processes detected\n\
         ✓ Game root: /g\n\
         ✓ Mods folder: /mo2/mods\n\
         ✓ MO2 detected: /mo2\n\
         ✓ Active profile: Fallen\n\
         ✓ Found 1 mods\n  - a: ENABLED\n\
         ⚠ F4SE loader not found (will use Fallout4.exe)\n\
         ✓ Log file: /logs/launcher.log\n\
         ✓ Platform: Windows=false\n\
         ✓ System Time: 2026-01-01 10:00:00\n\
         \n✓ All diagnostics completed successfully!"
    );
}

#[test]
fn diagnostics_report_of_failures() {
    let report = run_diagnostics(
        (0, 0),
        "Unknown",
        -5,
        &vec!["Fallout4.exe".to_string(), "f4se_loader.exe".to_string()],
        &Err("Cannot find Fallen World installation".to_string()),
        &Err("unused".to_string()),
        &None,
        "l",
        true,
        "t",
    );
    assert!(report.starts_with("✓ System Detection: Resolution 0x0, GPU: Unknown, Scale: -5%\n⚠ Blocking processes: Fallout4.exe, f4se_loader.exe\n✗ Path discovery failed: Cannot find Fallen World installation\n✓ Log file: l\n"));
    assert!(report.contains("✓ Platform: Windows=true\n"));
}

#[test]
fn saves_are_found_in_the_profile_then_shared() {
    let existing = vec!["/mo2/profiles/Saves".to_string()];
    assert_eq!(backup_saves_source(&Ok(paths(Some("Fallen"))), &existing).ok(), Some("/mo2/profiles/Saves".to_string()));
    let own = vec!["/mo2/profiles/Fallen/saves".to_string(), "/mo2/profiles/Saves".to_string()];
    assert_eq!(backup_saves_source(&Ok(paths(Some("Fallen"))), &own).ok(), Some("/mo2/profiles/Fallen/saves".to_string()));
    let none = backup_saves_source(&Ok(paths(Some("Fallen"))), &[]).err().unwrap();
    assert_eq!(none.message, "No saves folder found. Checked:\n  /mo2/profiles/Fallen/saves\n  /mo2/profiles/Saves");
    let mut no_mo2 = paths(None);
    no_mo2.mo2_root = None;
    assert_eq!(backup_saves_source(&Ok(no_mo2), &[]).err().unwrap().message, "MO2 root not found");
    assert_eq!(backup_saves_source(&Err("e".to_string()), &[]).err().unwrap().message, "e");
}

#[test]
fn saves_destination_and_report() {
    assert_eq!(backup_saves_destination(None).err().unwrap().message, "Could not open folder picker");
    assert_eq!(backup_saves_destination(Some("  \n")).err().unwrap().message, "No destination selected");
    assert_eq!(backup_saves_destination(Some(" /backup \n")).ok(), Some("/backup/Fallout4_Saves_FallenWorld".to_string()));
    let moved = backup_saves_outcome("/b", Ok(()), Ok(()));
    assert!(moved.success);
    assert_eq!(moved.message, "Saves moved to:\n/b");
    let kept = backup_saves_outcome("/b", Ok(()), Err("busy".to_string()));
    assert!(!kept.success);
    assert_eq!(kept.message, "Saves copied but original could not be removed: busy");
    assert_eq!(backup_saves_outcome("/b", Err("copy".to_string()), Ok(())).message, "copy");
}

use fallen_world_launcher::commands::ini::{apply_resolution, physics_resolution, resolution_changes, save_ini_changes, update_ini_value};

#[test]
fn resolution_edits_and_reports() {
    let c = resolution_changes(3440, 1440);
    assert_eq!((c[0].key.as_str(), c[0].value.as_str()), ("iSize W", "3440"));
    assert_eq!((c[1].key.as_str(), c[1].value.as_str()), ("iSize H", "1440"));
    let ini = "[Main]\nResolution=1920x1080\nbUseTAA=1\n";
    assert_eq!(physics_resolution(ini, 3440, 1440, Some("DLSS")), "[Main]\nResolution=3440x1440\nbUseTAA=0\n");
    assert_eq!(physics_resolution(ini, 1280, 720, None), "[Main]\nResolution=1280x720\nbUseTAA=1\n");
    assert_eq!(apply_resolution(1920, 1080, Ok(()), None).message, "Resolution set to 1920x1080");
    assert_eq!(
        apply_resolution(1920, 1080, Ok(()), Some(Err("Read failed: x".to_string()))).message,
        "Resolution set to 1920x1080 (HighFPS INI warning: Read failed: x)"
    );
    assert!(!apply_resolution(1, 1, Err("nope".to_string()), None).success);
    assert_eq!(save_ini_changes("Fallout4.ini", 3, Ok(())).message, "Saved Fallout4.ini (3 change(s))");
    assert_eq!(update_ini_value("Display", "iSize W", "1", Ok(()), Ok(())).message, "Set Display.iSize W=1");
    assert_eq!(update_ini_value("D", "k", "v", Err("gone".to_string()), Ok(())).message, "Cannot read INI: gone");
}

#[test]
fn selection_errors_name_the_first_bad_index() {
    let steps = FomodService::parse_xml(XML).unwrap();
    let sel = |s: usize, g: usize, p: Vec<usize>| to_selections(vec![SelectionItem { step_index: s, group_index: g, plugin_indices: p }]);
    assert_eq!(FomodService::validate_selections(&steps, &sel(7, 0, vec![])), Err("Invalid step index: 7".to_string()));
    assert_eq!(
        FomodService::validate_selections(&steps, &sel(1, 3, vec![])),
        Err("Invalid group index in step 1: 3".to_string())
    );
    assert_eq!(
        FomodService::validate_selections(&steps, &sel(1, 0, vec![0, 4, 9])),
        Err("Invalid plugin index in step 1, group 0: 4".to_string())
    );
    assert_eq!(FomodService::validate_selections(&steps, &sel(1, 0, vec![0])), Ok(()));
}
