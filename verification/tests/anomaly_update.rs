use fallen_world_launcher::services::anomaly_update::AnomalyUpdateService;

#[test]
fn version_line_is_split_into_version_and_description() {
    let u = AnomalyUpdateService::check("  Fallen World 0.1.3 - New weather  \n", Some("0.1.2\n")).unwrap();
    assert_eq!(u.version, "0.1.3");
    assert_eq!(u.description, "New weather");
    assert_eq!(u.raw, "Fallen World 0.1.3 - New weather");
    assert!(u.is_new);
}

#[test]
fn seen_version_is_not_new() {
    let u = AnomalyUpdateService::check("Fallen World 2.10 - x", Some(" 2.10 ")).unwrap();
    assert_eq!(u.version, "2.10");
    assert!(!u.is_new);
    let first = AnomalyUpdateService::check("Fallen World 2.10", None).unwrap();
    assert!(first.is_new);
    assert_eq!(first.description, "");
}

#[test]
fn line_without_version_is_its_own_version() {
    let u = AnomalyUpdateService::check("Big update", None).unwrap();
    assert_eq!(u.version, "Big update");
}

#[test]
fn empty_file_is_an_error() {
    assert_eq!(AnomalyUpdateService::check(" \n ", None).err(), Some("version.md was empty".to_string()));
}

#[test]
fn an_acknowledged_version_is_not_new() {
    let body = "Fallen World 0.1.3 - Big patch";
    let first = AnomalyUpdateService::check(body, None).unwrap();
    assert!(first.is_new);
    let again = AnomalyUpdateService::check(body, Some(first.version.as_str())).unwrap();
    assert_eq!(again.version, "0.1.3");
    assert_eq!(again.description, "Big patch");
    assert_eq!(again.raw, body);
    assert!(!again.is_new);
    assert!(AnomalyUpdateService::check(body, Some("0.1.2")).unwrap().is_new);
}
