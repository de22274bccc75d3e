use fallen_world_launcher::services::game_launcher::{GameLauncher, LaunchPlan};
use fallen_world_launcher::services::system_info::BlockingProcess;

fn s(v: &[&str]) -> Vec<String> {
    v.iter().map(|x| x.to_string()).collect()
}

#[test]
fn loader_is_found_in_documented_order() {
    let existing = s(&["/g/Fallout4/f4se_loader.exe", "/mo2/mods/F4SE/f4se_loader.exe"]);
    assert_eq!(GameLauncher::find_f4se_loader("/g", &existing), Some("/g/Fallout4/f4se_loader.exe".to_string()));
    let existing2 = s(&["/mo2/mods/F4SE/f4se_loader.exe"]);
    assert_eq!(GameLauncher::find_f4se_loader("/g", &existing2), None);
    let dirs = s(&["Other", "F4SE"]);
    assert_eq!(
        GameLauncher::find_f4se_loader_in("/g", Some("/mo2"), &dirs, &existing2),
        Some("/mo2/mods/F4SE/f4se_loader.exe".to_string())
    );
}

#[test]
fn mo2_shortcut_prefers_the_loader_binary() {
    let ini = "[General]\n1\\title=Ignored\n[customExecutables]\n1\\title=Skyrim\n1\\binary=C:/x/skse.exe\n2\\title=F4SE Launcher\n2\\binary=@ByteArray(D:\\\\Games\\\\F4SE_Loader.EXE)\nsize=2\n";
    assert_eq!(GameLauncher::find_mo2_f4se_executable(ini), Some("F4SE Launcher".to_string()));
    let fallback = "[customExecutables]\n1\\title=Run f4se\n1\\binary=C:/other.exe\n";
    assert_eq!(GameLauncher::find_mo2_f4se_executable(fallback), Some("Run f4se".to_string()));
    assert_eq!(GameLauncher::find_mo2_f4se_executable("[customExecutables]\n1\\title=Explorer\n"), None);
}

#[test]
fn ini_values_lose_qt_wrappers() {
    assert_eq!(GameLauncher::unwrap_ini_value(" @ByteArray(\"Fallen\") "), "Fallen");
    assert_eq!(GameLauncher::unwrap_ini_value("\"plain\""), "plain");
}

fn plan(r: Result<LaunchPlan, fallen_world_launcher::models::OperationResult>) -> (String, Vec<String>, Option<String>, String) {
    let p = r.ok().expect("a plan");
    (p.program, p.args, p.dir, p.success)
}

#[test]
fn game_launch_goes_through_mo2_with_profile_and_shortcut() {
    let existing = s(&["/mo2/ModOrganizer.exe"]);
    let none: Vec<String> = Vec::new();
    let (program, args, dir, ok) =
        plan(GameLauncher::launch_game(&[], "/g", Some("/mo2"), Some("Fallen"), Some("F4SE"), &none, &existing));
    assert_eq!(program, "/mo2/ModOrganizer.exe");
    assert_eq!(args, s(&["-p", "Fallen", "moshortcut://:F4SE"]));
    assert_eq!(dir, Some("/mo2".to_string()));
    assert_eq!(ok, "Game launched through MO2 (MO2 shortcut 'F4SE')");
}

#[test]
fn game_launch_without_f4se_in_mo2_is_refused() {
    let existing = s(&["/mo2/ModOrganizer.exe"]);
    let none: Vec<String> = Vec::new();
    let r = GameLauncher::launch_game(&[], "/g", Some("/mo2"), None, None, &none, &existing);
    let o = r.err().unwrap();
    assert!(!o.success);
    assert!(o.message.starts_with("F4SE not found."));
}

#[test]
fn game_launch_falls_back_to_loader_then_exe() {
    let none: Vec<String> = Vec::new();
    let existing = s(&["/g/f4se_loader.exe"]);
    let (program, _, _, ok) = plan(GameLauncher::launch_game(&[], "/g", None, None, None, &none, &existing));
    assert_eq!(program, "/g/f4se_loader.exe");
    assert!(ok.starts_with("Game launched via F4SE"));
    let (program2, _, _, ok2) = plan(GameLauncher::launch_game(&[], "/g", None, None, None, &none, &none));
    assert_eq!(program2, "/g\\Fallout4.exe");
    assert_eq!(ok2, "Game launched (F4SE not found, using Fallout4.exe)");
}

#[test]
fn blocking_processes_refuse_the_launch() {
    let blocking = vec![
        BlockingProcess { name: "Fallout4.exe".to_string(), pid: 1 },
        BlockingProcess { name: "ModOrganizer.exe".to_string(), pid: 2 },
    ];
    let none: Vec<String> = Vec::new();
    let o = GameLauncher::launch_game(&blocking, "/g", None, None, None, &none, &none).err().unwrap();
    assert_eq!(
        o.message,
        "Cannot launch: Fallout4.exe, ModOrganizer.exe running. Please close these processes first."
    );
    assert!(GameLauncher::steam_launch(&blocking).is_err());
}

#[test]
fn steam_and_mo2_plans_and_outcomes() {
    let (program, args, dir, _) = plan(GameLauncher::steam_launch(&[]));
    assert_eq!(program, "steam");
    assert_eq!(args, s(&["steam://run/287860"]));
    assert_eq!(dir, None);
    let none: Vec<String> = Vec::new();
    assert_eq!(
        GameLauncher::launch_mo2(None, &none).err().unwrap().message,
        "Mod Organizer 2 not found. Set your game path in Settings."
    );
    assert_eq!(GameLauncher::launch_mo2(Some("/mo2"), &none).err().unwrap().message, "ModOrganizer.exe not found at /mo2");
    let p = GameLauncher::launch_mo2(Some("/mo2"), &s(&["/mo2/ModOrganizer.exe"])).ok().unwrap();
    let ok = GameLauncher::launch_outcome(&p, Ok(()));
    assert!(ok.success);
    assert_eq!(ok.message, "Mod Organizer 2 launched");
    let bad = GameLauncher::launch_outcome(&p, Err("denied".to_string()));
    assert!(!bad.success);
    assert_eq!(bad.message, "Failed to launch MO2: denied");
}
