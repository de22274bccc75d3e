use fallen_world_launcher::services::fluorine::Fluorine;
use fallen_world_launcher::services::linux_bootstrap::{LinuxBootstrap, MODLIST_JSON_URL};

fn s(v: &[&str]) -> Vec<String> {
    v.iter().map(|x| x.to_string()).collect()
}

#[test]
fn install_location_resolves_file_folder_or_nested_release() {
    let files = s(&["/opt/fm/fluorine-manager-1.2.0/fluorine-manager", "/bin/fm"]);
    assert_eq!(Fluorine::resolve_install("/bin/fm", true, &files, &vec![]), Some("/bin/fm".to_string()));
    assert_eq!(
        Fluorine::resolve_install("/opt/fm", true, &files, &s(&["docs", "fluorine-manager-1.2.0"])),
        Some("/opt/fm/fluorine-manager-1.2.0/fluorine-manager".to_string())
    );
    assert_eq!(Fluorine::resolve_install("/opt/fm", false, &files, &s(&["fluorine-manager-1.2.0"])), None);
}

#[test]
fn binary_search_order() {
    let files = s(&["/usr/bin/fluorine-manager"]);
    assert_eq!(Fluorine::which(&s(&["/bin", "/usr/bin"]), &files), Some("/usr/bin/fluorine-manager".to_string()));
    assert_eq!(
        Fluorine::home_locations("/home/u"),
        s(&["/home/u/.local/share/fluorine-manager", "/home/u/Applications/fluorine-manager"])
    );
    assert_eq!(
        Fluorine::find_binary(None, Some("p".to_string()), vec![Some("h".to_string())]),
        Some("p".to_string())
    );
    assert_eq!(Fluorine::find_binary(None, None, vec![None, Some("h2".to_string())]), Some("h2".to_string()));
    assert_eq!(Fluorine::find_binary(Some("o".to_string()), Some("p".to_string()), vec![]), Some("o".to_string()));
    assert_eq!(Fluorine::find_binary(None, None, vec![None]), None);
}

#[test]
fn opening_an_instance_needs_the_binary() {
    let (program, args) = Fluorine::open_instance(Some("/bin/fm".to_string()), "/games/fw").unwrap();
    assert_eq!(program, "/bin/fm");
    assert_eq!(args, s(&["--instance", "/games/fw"]));
    assert!(Fluorine::open_instance(None, "/x").unwrap_err().starts_with("fluorine-manager not found."));
    assert!(LinuxBootstrap::launch_fluorine(None, "/x").is_err());
}

#[test]
fn gallery_metadata_is_read_from_the_first_entry() {
    let body = r#"  [{"title":"Fallen World","version":"0.1.3","links":{"download":"https://x/y.wabbajack","machineURL":"fallen"},"download_metadata":{"SizeOfArchives":10,"SizeOfInstalledFiles":20}}] "#;
    let m = LinuxBootstrap::metadata_from("U", body).unwrap();
    assert_eq!(m.title, "Fallen World");
    assert_eq!(m.version, "0.1.3");
    assert_eq!(m.download_url, "https://x/y.wabbajack");
    assert_eq!(m.machine_url, Some("fallen".to_string()));
    assert_eq!(m.archives_size, Some(10));
    assert_eq!(m.installed_size, Some(20));
}

#[test]
fn gallery_metadata_errors() {
    assert!(LinuxBootstrap::metadata_from("U", "not json").err().unwrap().starts_with("Invalid JSON at U: "));
    assert_eq!(LinuxBootstrap::metadata_from("U", "[]").err().unwrap(), "U did not return a non-empty array");
    assert_eq!(
        LinuxBootstrap::metadata_from("U", r#"[{"title":"T"}]"#).err().unwrap(),
        "U entry has no links.download — modlist may be unpublished"
    );
    let m = LinuxBootstrap::metadata_from("U", r#"[{"links":{"download":"d"}}]"#).unwrap();
    assert_eq!(m.title, "(unknown)");
    assert_eq!(m.version, "(unknown)");
    assert_eq!(m.machine_url, None);
}

#[test]
fn install_source_and_url() {
    assert!(LinuxBootstrap::install_source(false, Some("u")).is_err());
    assert_eq!(LinuxBootstrap::install_source(true, Some("u")), Ok(Some("u".to_string())));
    assert_eq!(LinuxBootstrap::install_source(true, Some("")), Ok(None));
    assert_eq!(LinuxBootstrap::install_source(true, None), Ok(None));
    assert_eq!(LinuxBootstrap::metadata_url(None), MODLIST_JSON_URL);
    assert_eq!(LinuxBootstrap::metadata_url(Some("x")), "x");
}
