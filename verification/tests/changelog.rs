use fallen_world_launcher::services::changelog::ChangelogService;

#[test]
fn flat_link_list_parses() {
    let md = "CHANGELOG 5/15/26 CLICK [HERE](https://example.com/23)\nCHANGELOG 5/10/26 CLICK [HERE](https://example.com/21)";
    let data = ChangelogService::parse_markdown(md);
    assert_eq!(data.sections.len(), 1);
    assert_eq!(data.sections[0].category, "Changelog");
    assert_eq!(data.sections[0].entries.len(), 2);
    assert_eq!(data.sections[0].entries[0].title, "CHANGELOG 5/15/26");
    assert_eq!(data.sections[0].entries[0].links[0].url, "https://example.com/23");
}

#[test]
fn structured_changelog_parses() {
    let md = "version: 2.3\nreleased: 2026-05-01\n# Fallen World\n## Added\n### Gunners\n- Reworked AI [Gunners Overhaul](https://example.com/g)\n* Second note\n### Weather\nplain note\n## Fixed\n### Crash\n";
    let data = ChangelogService::parse_markdown(md);
    assert_eq!(data.version, "2.3");
    assert_eq!(data.released, "2026-05-01");
    assert_eq!(data.sections.len(), 2);
    assert_eq!(data.sections[0].category, "Added");
    assert_eq!(data.sections[0].entries.len(), 2);
    let gunners = &data.sections[0].entries[0];
    assert_eq!(gunners.title, "Gunners");
    assert_eq!(gunners.notes, vec!["Reworked AI".to_string(), "Second note".to_string()]);
    assert_eq!(gunners.links.len(), 1);
    assert_eq!(gunners.links[0].label, "Gunners Overhaul");
    assert_eq!(gunners.links[0].url, "https://example.com/g");
    assert_eq!(data.sections[0].entries[1].notes, vec!["plain note".to_string()]);
    assert_eq!(data.sections[1].category, "Fixed");
    assert_eq!(data.sections[1].entries[0].title, "Crash");
    assert!(data.sections[1].entries[0].notes.is_empty());
}

#[test]
fn empty_changelog_defaults_version() {
    let data = ChangelogService::parse_markdown("");
    assert_eq!(data.version, "1.0");
    assert_eq!(data.released, "");
    assert!(data.sections.is_empty());
}

#[test]
fn version_after_section_is_an_entry() {
    let data = ChangelogService::parse_markdown("## Notes\nversion: 9");
    assert_eq!(data.version, "1.0");
    assert_eq!(data.sections[0].entries[0].title, "version: 9");
}

#[test]
fn flat_line_without_text_gets_default_title() {
    let data = ChangelogService::parse_markdown("CLICK [HERE](u)");
    assert_eq!(data.sections[0].entries[0].title, "Changelog");
    assert_eq!(data.sections[0].entries[0].links[0].label, "HERE");
}

#[test]
fn extract_links_removes_markup() {
    let (text, links) = ChangelogService::extract_links("See [A](x) and [ ](y) then [broken(z");
    assert_eq!(text, "See  and  then [broken(z");
    assert_eq!(links.len(), 1);
    assert_eq!(links[0].label, "A");
    assert_eq!(links[0].url, "x");
}
