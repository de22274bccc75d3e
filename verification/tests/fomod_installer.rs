use fallen_world_launcher::services::fomod_installer::{FileAction, FomodInstaller};
use fallen_world_launcher::services::fomod_service::{FileSpec, Group, GroupType, InstallStep, Plugin, Selection};
use fallen_world_launcher::services::system_info::BlockingProcess;

#[test]
fn test_is_ultrawide_resolution() {
    assert!(!FomodInstaller::is_ultrawide_resolution(1920, 1080));
    assert!(!FomodInstaller::is_ultrawide_resolution(2560, 1440));
    assert!(FomodInstaller::is_ultrawide_resolution(3440, 1440));
    assert!(FomodInstaller::is_ultrawide_resolution(5120, 2160));
    assert!(FomodInstaller::is_ultrawide_resolution(5120, 1440));
    assert!(!FomodInstaller::is_ultrawide_resolution(100, 0));
}

#[test]
fn test_validate_output_path_valid() {
    assert!(FomodInstaller::validate_output_path("C:/Fallout4/mods/Fallen World Optional Mods").is_ok());
}

#[test]
fn test_validate_output_path_invalid() {
    assert!(FomodInstaller::validate_output_path("C:/Fallout4/mods/Bad Folder Name").is_err());
}

#[test]
fn test_ultrawide_32_9_vs_21_9() {
    assert_eq!(FomodInstaller::ultrawide_support_folder(3440, 1440), "GasMask219Support");
    assert_eq!(FomodInstaller::ultrawide_support_folder(5120, 1440), "GasMask329Support");
    assert_eq!(FomodInstaller::ultrawide_support_folder(3000, 1000), "GasMask219Support");
}

#[test]
fn test_physics_ini_regex_patterns() {
    let out = FomodInstaller::update_physics_ini("Resolution=1920x1080", 3440, 1440, None);
    assert_eq!(out, "Resolution=3440x1440");
    let out = FomodInstaller::update_physics_ini("[Display]\nresolution=1920x1080\nbUseTAA = 1\nSwapEffect = 3\n", 2560, 1440, Some("DLSS"));
    assert_eq!(out, "[Display]\nResolution=2560x1440\nbUseTAA=0\nSwapEffect=4\n");
    let out = FomodInstaller::update_physics_ini("bUseTAA=1\n", 1, 1, Some("FSR"));
    assert_eq!(out, "bUseTAA=1\n");
}

#[test]
fn test_check_blocking_processes() {
    let result = FomodInstaller::check_blocking_processes(&[]);
    assert!(result.is_ok());
}

#[test]
fn blocking_processes_are_listed() {
    let ps = vec![
        BlockingProcess { name: "Fallout4.exe".to_string(), pid: 1 },
        BlockingProcess { name: "Spriggit.Json.Fallout4.exe".to_string(), pid: 2 },
        BlockingProcess { name: "MO2.exe".to_string(), pid: 3 },
    ];
    assert_eq!(
        FomodInstaller::check_blocking_processes(&ps),
        Err("Cannot install while these processes are running:\n- Fallout4.exe\n- MO2.exe\n\nClose them and try again.".to_string())
    );
}

#[test]
fn test_fomod_installer_safety_checks() {
    for path in ["C:/mods/Wrong Name", "C:/Fallout4/Wrong Folder", "/home/user/mods"] {
        assert!(FomodInstaller::validate_output_path(path).is_err(), "Should reject path: {}", path);
    }
}

#[test]
fn test_ultrawide_detection_edge_cases() {
    assert!(!FomodInstaller::is_ultrawide_resolution(2000, 1000));
    assert!(FomodInstaller::is_ultrawide_resolution(2001, 1000));
    assert!(FomodInstaller::is_ultrawide_resolution(8000, 1000));
    assert!(!FomodInstaller::is_ultrawide_resolution(3440, 0));
}

fn spec(src: &str, dst: &str, t: &str) -> FileSpec {
    FileSpec { source: src.to_string(), destination: dst.to_string(), file_type: t.to_string() }
}

#[test]
fn chosen_files_follow_selections() {
    let plugin = |name: &str, files: Vec<FileSpec>| Plugin {
        name: name.to_string(),
        description: String::new(),
        files,
        image: None,
    };
    let steps = vec![InstallStep {
        name: "S".to_string(),
        groups: vec![Group {
            name: "G".to_string(),
            group_type: GroupType::SelectAny,
            plugins: vec![plugin("A", vec![spec("a", "", "folder")]), plugin("B", vec![spec("b1", "x", "file"), spec("b2", "", "file")])],
        }],
        special_type: None,
    }];
    let sels = vec![
        Selection { step_index: 0, group_index: 0, plugin_indices: vec![1, 7, 0] },
        Selection { step_index: 3, group_index: 0, plugin_indices: vec![0] },
    ];
    let chosen = FomodInstaller::chosen_files(&steps, &sels);
    let got: Vec<(String, String)> = chosen.iter().map(|(f, p)| (f.source.clone(), p.clone())).collect();
    assert_eq!(
        got,
        vec![("b1".to_string(), "B".to_string()), ("b2".to_string(), "B".to_string()), ("a".to_string(), "A".to_string())]
    );
}

#[test]
fn paths_and_reports() {
    assert_eq!(FomodInstaller::normalize_source("\\\\Data\\Textures\\"), "Data/Textures");
    assert_eq!(FomodInstaller::normalize_source("//"), "");
    assert_eq!(FomodInstaller::destination_base("/out", ""), "/out");
    assert_eq!(FomodInstaller::destination_base("/out", "Data"), "/out/Data");
    assert_eq!(FomodInstaller::missing_entry("a.esp", "P"), "a.esp (plugin: P)");
    let many: Vec<String> = (0..14).map(|i| format!("m{}", i)).collect();
    let err = FomodInstaller::copy_outcome(&many, &vec![]).unwrap_err();
    assert!(err.starts_with("Selected files not found:\nm0\nm1\n"));
    assert!(err.contains("m11\n...and 2 more\n\nPlease verify the FOMOD package is complete."));
    assert!(!err.contains("m12"));
    assert_eq!(FomodInstaller::copy_outcome(&vec![], &vec!["x -> y (e)".to_string()]), Err("Copy failures:\nx -> y (e)".to_string()));
    assert_eq!(FomodInstaller::copy_outcome(&vec![], &vec![]), Ok(()));
}

#[test]
fn test_resolve_source_path_direct() {
    let path = FomodInstaller::resolve_source_path(".", "test/file.txt", &[], &vec![]);
    // Should handle path normalization
    assert!(!path.contains("\\"));
}

#[test]
fn test_resolve_source_path_normalization() {
    let path = FomodInstaller::resolve_source_path(".", "test\\file.txt", &[], &vec![]);
    // Should normalize backslashes to forward slashes
    assert!(!path.contains("\\\\"));
}

#[test]
fn test_resolve_source_path_leading_slash() {
    let path = FomodInstaller::resolve_source_path(".", "/test/file.txt", &[], &vec![]);
    // Should handle leading slashes
    assert!(path.contains("test") || path.contains("file"));
}

#[test]
fn source_paths_are_matched_ignoring_case() {
    let existing = vec!["/src/Textures".to_string()];
    let listings = vec![("/src/Textures".to_string(), vec!["Readme.txt".to_string(), "ARMOR.dds".to_string()])];
    assert_eq!(
        FomodInstaller::resolve_source_path("/src", "textures\\armor.dds", &existing, &listings),
        "/src/textures/armor.dds"
    );
    let existing2 = vec!["/src/Textures".to_string(), "/src/Textures/ARMOR.dds".to_string()];
    assert_eq!(
        FomodInstaller::resolve_source_path("/src", "Textures/armor.dds", &existing2, &listings),
        "/src/Textures/ARMOR.dds"
    );
    assert_eq!(FomodInstaller::resolve_source_path("/src", "//", &[], &vec![]), "/src");
    let exact = vec!["/src/a/b".to_string()];
    assert_eq!(FomodInstaller::resolve_source_path("/src", "a/b/", &exact, &vec![]), "/src/a/b");
}

#[test]
fn file_action_decides_copy_missing_or_skip() {
    let spec = |src: &str, dst: &str, kind: &str| FileSpec {
        source: src.to_string(),
        destination: dst.to_string(),
        file_type: kind.to_string(),
    };
    let a = FomodInstaller::file_action(&spec("Tex", "Textures", "folder"), "P", "/out", true, false, Some("Tex"));
    assert!(matches!(a, FileAction::CopyFolder(ref d) if d == "/out/Textures"));
    let a = FomodInstaller::file_action(&spec("a\\b.esp", "", "file"), "P", "/out", false, true, Some("b.esp"));
    assert!(matches!(a, FileAction::CopyFile(ref d) if d == "/out/b.esp"));
    let a = FomodInstaller::file_action(&spec("b.esp", "x/c.esp", "file"), "P", "/out", false, true, Some("b.esp"));
    assert!(matches!(a, FileAction::CopyFile(ref d) if d == "/out/x/c.esp"));
    let a = FomodInstaller::file_action(&spec("gone", "", "folder"), "Plug", "/out", false, false, None);
    assert!(matches!(a, FileAction::Missing(ref e) if e == "gone (plugin: Plug)"));
    let a = FomodInstaller::file_action(&spec("x", "", "other"), "P", "/out", true, true, Some("x"));
    assert!(matches!(a, FileAction::Skip));
}
