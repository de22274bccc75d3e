use fallen_world_launcher::models::{LoadOrder, ModInfo};
use fallen_world_launcher::services::load_order_validator::LoadOrderValidator;
use fallen_world_launcher::string_map::StringMap;

fn info(name: &str, masters: &[&str]) -> ModInfo {
    ModInfo {
        name: name.to_string(),
        version: "1.0".to_string(),
        has_esm: masters.is_empty(),
        master_files: masters.iter().map(|m| m.to_string()).collect(),
    }
}

fn order_of(ids: &[&str], infos: Vec<(&str, ModInfo)>) -> LoadOrder {
    let mut mod_info = StringMap::new();
    for (k, v) in infos {
        mod_info.insert(k.to_string(), v);
    }
    LoadOrder { order: ids.iter().map(|s| s.to_string()).collect(), mod_info }
}

#[test]
fn test_validate_simple_load_order() {
    let mut mod_info = StringMap::new();
    mod_info.insert(
        "Fallout4.esm".to_string(),
        ModInfo {
            name: "Fallout 4".to_string(),
            version: "1.0".to_string(),
            has_esm: true,
            master_files: vec![],
        },
    );
    mod_info.insert(
        "MyMod.esp".to_string(),
        ModInfo {
            name: "My Mod".to_string(),
            version: "1.0".to_string(),
            has_esm: false,
            master_files: vec!["Fallout4.esm".to_string()],
        },
    );
    let load_order = LoadOrder {
        order: vec!["Fallout4.esm".to_string(), "MyMod.esp".to_string()],
        mod_info,
    };
    let (valid, issues) = LoadOrderValidator::validate_load_order(&load_order);
    assert!(valid);
    assert!(issues.is_empty());
}

#[test]
fn test_detect_missing_master() {
    let mut mod_info = StringMap::new();
    mod_info.insert(
        "MyMod.esp".to_string(),
        ModInfo {
            name: "My Mod".to_string(),
            version: "1.0".to_string(),
            has_esm: false,
            master_files: vec!["Fallout4.esm".to_string()],
        },
    );
    let load_order = LoadOrder { order: vec!["MyMod.esp".to_string()], mod_info };
    let (valid, issues) = LoadOrderValidator::validate_load_order(&load_order);
    assert!(!valid);
    assert!(issues.iter().any(|i| i.contains("Missing master")));
}

#[test]
fn test_detect_wrong_load_order() {
    let mut mod_info = StringMap::new();
    mod_info.insert(
        "MyMod.esp".to_string(),
        ModInfo {
            name: "My Mod".to_string(),
            version: "1.0".to_string(),
            has_esm: false,
            master_files: vec!["Fallout4.esm".to_string()],
        },
    );
    let load_order = LoadOrder {
        order: vec!["MyMod.esp".to_string(), "Fallout4.esm".to_string()],
        mod_info,
    };
    let (valid, issues) = LoadOrderValidator::validate_load_order(&load_order);
    assert!(!valid);
    assert!(issues.iter().any(|i| i.contains("Load order issue")));
}

#[test]
fn master_match_ignores_case_and_duplicates_are_reported() {
    let lo = order_of(
        &["fallout4.ESM", "A.esp", "A.esp"],
        vec![("A.esp", info("A", &["Fallout4.esm"]))],
    );
    let (valid, issues) = LoadOrderValidator::validate_load_order(&lo);
    assert!(!valid);
    assert_eq!(issues, vec!["Duplicate mod in load order: A.esp".to_string()]);
}

#[test]
fn exact_messages_for_missing_and_late_masters() {
    let lo = order_of(&["B.esp", "Base.esm"], vec![("B.esp", info("B", &["Base.esm", "Gone.esm"]))]);
    let (_, issues) = LoadOrderValidator::validate_load_order(&lo);
    assert_eq!(
        issues,
        vec![
            "Missing master file for B.esp: Gone.esm (required but not in load order)".to_string(),
            "Load order issue: B.esp depends on Base.esm but Base.esm comes after B.esp in load order".to_string(),
        ]
    );
}

#[test]
fn cycle_is_reported_once() {
    let lo = order_of(
        &["A.esp", "B.esp"],
        vec![("A.esp", info("A", &["B.esp"])), ("B.esp", info("B", &["A.esp"]))],
    );
    let (valid, issues) = LoadOrderValidator::validate_load_order(&lo);
    assert!(!valid);
    assert!(issues.contains(&"Circular dependency detected involving: A.esp".to_string()));
    assert!(!issues.contains(&"Circular dependency detected involving: B.esp".to_string()));
}

#[test]
fn self_dependency_is_a_cycle() {
    let lo = order_of(&["A.esp"], vec![("A.esp", info("A", &["A.esp"]))]);
    let (_, issues) = LoadOrderValidator::validate_load_order(&lo);
    assert_eq!(issues, vec!["Circular dependency detected involving: A.esp".to_string()]);
}

#[test]
fn conflicts_name_shared_masters_and_incompatible_pairs() {
    let lo = order_of(
        &["Fallout4.esm", "FalloutNV.esm", "A.esp", "B.esp"],
        vec![("A.esp", info("A", &["Fallout4.esm"])), ("B.esp", info("B", &["Fallout4.esm"]))],
    );
    let c = LoadOrderValidator::check_conflicts(&lo);
    assert_eq!(
        c,
        vec![
            "Potential conflict: Multiple mods modify Fallout4.esm (mods: A.esp, B.esp)".to_string(),
            "Incompatible mods detected: Fallout4.esm and FalloutNV.esm cannot be used together".to_string(),
        ]
    );
}

#[test]
fn suggestion_lists_every_mod() {
    let lo = order_of(
        &["Base.esm", "A.esp", "B.esp"],
        vec![("A.esp", info("A", &["Base.esm"])), ("B.esp", info("B", &["A.esp"]))],
    );
    let s = LoadOrderValidator::suggest_order(&lo);
    assert_eq!(s, vec!["Base.esm".to_string(), "A.esp".to_string(), "B.esp".to_string()]);
}

#[test]
fn integrity_reports_absent_folders_files_and_masters() {
    let lo = order_of(
        &["A", "B", "C"],
        vec![("A", info("A", &["M.esm", "C"])), ("B", info("B", &["N.esm"]))],
    );
    let existing = vec!["/mods/A".to_string(), "/mods/B".to_string(), "/mods/N.esm".to_string()];
    let folders = vec!["/mods/A".to_string()];
    let (ok, missing) = LoadOrderValidator::validate_file_integrity(&lo, "/mods", &existing, &folders);
    assert!(!ok);
    assert_eq!(
        missing,
        vec![
            "Expected mod folder but found file: B".to_string(),
            "Mod folder missing: C (path: /mods/C)".to_string(),
            "Master file not found: M.esm (required by A)".to_string(),
        ]
    );
}

#[test]
fn summary_counts_issues_and_conflicts() {
    let lo = order_of(&["A.esp"], vec![("A.esp", info("A", &["X.esm"]))]);
    let s = LoadOrderValidator::get_validation_summary(&lo);
    assert_eq!(
        s,
        "Total mods: 1\n\u{2717} 1 issues found:\n  - Missing master file for A.esp: X.esm (required but not in load order)\n"
    );
    let ok = order_of(&["A.esp"], vec![]);
    assert_eq!(LoadOrderValidator::get_validation_summary(&ok), "Total mods: 1\n\u{2713} Load order is valid\n");
}

#[test]
fn suggestion_puts_masters_before_their_dependents() {
    let lo = order_of(&["Fallout4.esm", "MyMod.esp"], vec![("MyMod.esp", info("My Mod", &["Fallout4.esm"]))]);
    assert_eq!(
        LoadOrderValidator::suggest_order(&lo),
        vec!["Fallout4.esm".to_string(), "MyMod.esp".to_string()]
    );
    let late = order_of(
        &["Patch.esp", "MyMod.esp", "Fallout4.esm", "MyMod.esp"],
        vec![
            ("Patch.esp", info("Patch", &["MyMod.esp", "Fallout4.esm"])),
            ("MyMod.esp", info("My Mod", &["Fallout4.esm", "Absent.esm"])),
        ],
    );
    let s = LoadOrderValidator::suggest_order(&late);
    assert_eq!(s, vec!["Fallout4.esm".to_string(), "MyMod.esp".to_string(), "Patch.esp".to_string()]);
    let fixed = LoadOrder { order: s, mod_info: late.mod_info };
    let (_, issues) = LoadOrderValidator::validate_load_order(&fixed);
    assert_eq!(
        issues,
        vec!["Missing master file for MyMod.esp: Absent.esm (required but not in load order)".to_string()]
    );
}
