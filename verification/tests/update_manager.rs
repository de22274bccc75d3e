use fallen_world_launcher::services::update_manager::UpdateManager;

#[test]
fn test_version_comparison_patch() {
    assert!(UpdateManager::should_update("1.0.0", "1.0.1"));
}

#[test]
fn test_version_comparison_minor() {
    assert!(UpdateManager::should_update("1.0.0", "1.1.0"));
}

#[test]
fn test_version_comparison_major() {
    assert!(UpdateManager::should_update("1.0.0", "2.0.0"));
}

#[test]
fn test_version_comparison_no_update() {
    assert!(!UpdateManager::should_update("1.0.0", "1.0.0"));
}

#[test]
fn test_version_comparison_downgrade() {
    assert!(!UpdateManager::should_update("2.0.0", "1.0.0"));
}

#[test]
fn test_version_comparison_partial() {
    assert!(UpdateManager::should_update("1.0", "1.0.1"));
}

#[test]
fn unparsable_components_count_as_zero() {
    assert!(!UpdateManager::should_update("1.x", "1.0"));
    assert!(UpdateManager::should_update("1.x", "1.+1"));
    assert!(!UpdateManager::should_update("1.99999999999", "1.0"));
    assert!(UpdateManager::should_update("1.4294967295", "1.4294967295.0"));
}

use fallen_world_launcher::services::mod_detector::SimpleMod;
use fallen_world_launcher::services::update_manager::ModVersionInfo;

fn info(name: &str, latest: &str, url: Option<&str>, log: Option<&str>) -> ModVersionInfo {
    ModVersionInfo {
        name: name.to_string(),
        current_version: "1.0.0".to_string(),
        latest_version: latest.to_string(),
        download_url: url.map(|u| u.to_string()),
        changelog: log.map(|c| c.to_string()),
    }
}

#[test]
fn updates_are_listed_for_newer_published_versions() {
    let installed = vec![
        SimpleMod { id: "a".to_string(), name: "a".to_string(), version: "1.0.0".to_string() },
        SimpleMod { id: "b".to_string(), name: "b".to_string(), version: "2.0".to_string() },
        SimpleMod { id: "c".to_string(), name: "c".to_string(), version: "1.0.0".to_string() },
    ];
    let available = vec![
        info("a", "1.0.0", None, None),
        info("b", "2.0.1", None, Some("fixes")),
        info("a", "1.2.0", Some("u"), None),
    ];
    let updates = UpdateManager::check_updates(&installed, &available);
    assert_eq!(updates.len(), 2);
    assert_eq!(updates[0].mod_id, "a");
    assert_eq!(updates[0].available_version, "1.2.0");
    assert_eq!(updates[0].changelog, "");
    assert_eq!(updates[1].mod_id, "b");
    assert_eq!(updates[1].changelog, "fixes");
}

#[test]
fn update_source_and_changelog() {
    let available = vec![info("a", "1.2.0", Some("https://x"), Some("notes")), info("b", "1.0.0", None, None)];
    assert_eq!(UpdateManager::update_source(&available, "a"), Ok("https://x".to_string()));
    assert_eq!(
        UpdateManager::update_source(&available, "b"),
        Err("No download URL available for this mod. Please update manually.".to_string())
    );
    assert_eq!(UpdateManager::update_source(&available, "z"), Err("No update information found for mod: z".to_string()));
    assert_eq!(UpdateManager::get_changelog(&available, "a"), Some("notes".to_string()));
    assert_eq!(UpdateManager::get_changelog(&available, "b"), None);
    assert_eq!(UpdateManager::check_launcher_update(), None);
}

#[test]
fn get_all_versions_keeps_each_names_last_entry() {
    let av = vec![info("a", "1.0", None, None), info("b", "2.0", None, None), info("a", "1.5", Some("u"), None)];
    let all = UpdateManager::get_all_versions(&av);
    assert_eq!(all.len(), 2);
    assert_eq!(all[0].name, "a");
    assert_eq!(all[0].latest_version, "1.5");
    assert_eq!(all[0].download_url, Some("u".to_string()));
    assert_eq!(all[1].name, "b");
    assert_eq!(all[1].latest_version, "2.0");
}
