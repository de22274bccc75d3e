use fallen_world_launcher::models::Mod;
use fallen_world_launcher::services::mod_detector::ModDetector;
use fallen_world_launcher::services::mod_manager::ModManager;

fn entries(v: &[(&str, bool)]) -> Vec<(String, bool)> {
    v.iter().map(|(n, d)| (n.to_string(), *d)).collect()
}

#[test]
fn plain_listing_sorts_by_name_and_keeps_listing_order_numbers() {
    let e = entries(&[("Zeta", true), ("__cache", true), (".git", true), ("readme.txt", false), ("Alpha", true)]);
    let mods = ModManager::list_mods(&e, "2026-01-01T00:00:00+00:00");
    assert_eq!(mods.len(), 2);
    assert_eq!(mods[0].name, "Alpha");
    assert_eq!(mods[0].load_order, 1);
    assert_eq!(mods[1].name, "Zeta");
    assert_eq!(mods[1].load_order, 0);
    assert_eq!(mods[0].description, "Mod: Alpha");
    assert_eq!(mods[0].version, "1.0");
    assert_eq!(mods[0].author, "Unknown");
    assert!(mods[0].enabled);
    assert_eq!(mods[0].last_updated, "2026-01-01T00:00:00+00:00");
}

#[test]
fn stubs_accept_everything() {
    assert!(ModManager::toggle_mod("x", false));
    assert!(ModManager::get_load_order_file("/g").is_empty());
    let none: Vec<Mod> = Vec::new();
    let (ok, issues) = ModManager::validate_dependencies("x", &none);
    assert!(ok && issues.is_empty());
}

#[test]
fn detected_mods_put_enabled_first_then_names() {
    let e = entries(&[
        ("b_mod", true),
        ("Overwrite", true),
        ("a_mod", true),
        ("c_mod", true),
        ("notes.txt", false),
    ]);
    let enabled = vec!["c_mod".to_string()];
    let mods = ModDetector::list_mods(&e, &enabled);
    assert_eq!(mods.len(), 3);
    assert_eq!(mods[0].id, "c_mod");
    assert!(mods[0].enabled);
    assert_eq!(mods[1].id, "a_mod");
    assert_eq!(mods[1].name, "A Mod");
    assert_eq!(mods[2].id, "b_mod");
    let orders: Vec<i32> = mods.iter().map(|m| m.load_order).collect();
    assert_eq!(orders, vec![0, 1, 2]);
}
