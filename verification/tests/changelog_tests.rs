use commitkit::changelog::ChangelogManager;
use commitkit::config::Config;
use commitkit::strutil::join_lines;
use commitkit::strutil::split_lines;

fn header_count(lines: &Vec<String>) -> usize {
    lines.iter().filter(|l| l.starts_with("## ")).count()
}

#[test]
fn test_format_entry_labels() {
    let manager = ChangelogManager::new("CHANGELOG.md", "demo");
    assert_eq!(manager.format_entry("feat", Some("core"), "add stuff", None), "- **Added** (core): add stuff");
    assert_eq!(manager.format_entry("fix", None, "repair stuff", None), "- **Fixed**: repair stuff");
    assert_eq!(manager.format_entry("chore", None, "tidy", None), "- **Maintenance**: tidy");
    assert_eq!(manager.format_entry("custom", None, "oddball", None), "- **custom**: oddball");
    assert_eq!(manager.format_entry("feat", Some(""), "no scope", None), "- **Added**: no scope");
}

#[test]
fn test_format_entry_body_bullets() {
    let manager = ChangelogManager::new("CHANGELOG.md", "demo");
    let entry = manager.format_entry(
        "feat",
        Some("ui"),
        "add dark mode",
        Some("  first detail \n\nsecond detail"),
    );
    assert_eq!(
        entry,
        "- **Added** (ui): add dark mode\n  - first detail\n  - second detail"
    );
}

#[test]
fn test_fresh_document_single_entry() {
    let manager = ChangelogManager::new("CHANGELOG.md", "demo");
    let document = manager.initial_document();
    let lines = split_lines(&document);
    assert_eq!(header_count(&lines), 0);
    let out = manager.add_entry_lines(lines, "feat", Some("core"), "add stuff", None, "2024-01-02");
    assert_eq!(header_count(&out), 1);
    let h = out.iter().position(|l| l.starts_with("## ")).unwrap();
    assert_eq!(out[h], "## Unreleased (2024-01-02)");
    assert_eq!(out[h + 1], "");
    assert_eq!(out[h + 2], "- **Added** (core): add stuff");
    assert_eq!(out.len(), h + 3);
    let entries = out.iter().filter(|l| l.starts_with("- ")).count();
    assert_eq!(entries, 1);
}

#[test]
fn test_second_entry_inserted_below_header() {
    let manager = ChangelogManager::new("CHANGELOG.md", "demo");
    let document = manager.initial_document();
    let lines = split_lines(&document);
    let once = manager.add_entry_lines(lines, "feat", None, "first change", None, "2024-01-02");
    let twice = manager.add_entry_lines(once, "fix", None, "second change", None, "2024-01-03");
    assert_eq!(header_count(&twice), 1);
    let h = twice.iter().position(|l| l.starts_with("## ")).unwrap();
    assert_eq!(twice[h + 1], "");
    assert_eq!(twice[h + 2], "- **Fixed**: second change");
    assert_eq!(twice[h + 3], "");
    assert_eq!(twice[h + 4], "- **Added**: first change");
}

#[test]
fn test_add_entry_with_configured_version() {
    let manager = ChangelogManager::new("CHANGELOG.md", "demo").with_version("2.0.0");
    let out = manager.add_entry_lines(Vec::new(), "feat", None, "add stuff", None, "2024-05-06");
    assert_eq!(out[0], "## 2.0.0 (2024-05-06)");
    assert_eq!(out[1], "");
    assert_eq!(out[2], "- **Added**: add stuff");
}

#[test]
fn test_update_version_promotes_unreleased() {
    let manager = ChangelogManager::new("CHANGELOG.md", "demo");
    let lines = vec![
        "## Unreleased".to_string(),
        "".to_string(),
        "- **Added**: one".to_string(),
        "- **Fixed**: two".to_string(),
    ];
    let out = manager.update_version_lines(lines, "1.2.0", "2024-03-04");
    assert_eq!(out[0], "## Unreleased");
    assert_eq!(out[1], "");
    assert_eq!(out[2], "## 1.2.0 (2024-03-04)");
    assert_eq!(out[3], "");
    assert_eq!(out[4], "- **Added**: one");
    assert_eq!(out[5], "- **Fixed**: two");
}

#[test]
fn test_update_version_without_unreleased_is_noop() {
    let manager = ChangelogManager::new("CHANGELOG.md", "demo");
    let lines = vec!["## 1.0.0 (2023-12-31)".to_string(), "".to_string(), "- **Added**: one".to_string()];
    let out = manager.update_version_lines(lines.clone(), "1.2.0", "2024-03-04");
    assert_eq!(out, lines);
}

#[test]
fn test_add_entry_today_dates_header() {
    let manager = ChangelogManager::new("CHANGELOG.md", "demo");
    let (out, date) = manager.add_entry_today(Vec::new(), "feat", None, "add stuff", None);
    assert!(date.len() >= 10);
    assert!(date.chars().all(|c| c.is_ascii_digit() || c == '-' || c == '+'));
    assert_eq!(out.len(), 3);
    assert_eq!(out[0], format!("## Unreleased ({})", date));
    assert_eq!(out[2], "- **Added**: add stuff");
}

#[test]
fn test_update_version_today_dates_header() {
    let manager = ChangelogManager::new("CHANGELOG.md", "demo");
    let lines = vec!["## Unreleased".to_string(), "".to_string(), "- **Added**: one".to_string()];
    let (out, date) = manager.update_version_today(lines, "3.1.4");
    assert_eq!(out[0], "## Unreleased");
    assert_eq!(out[2], format!("## 3.1.4 ({})", date));
}

#[test]
fn test_split_and_join_lines() {
    let text = "first\nsecond\r\nthird";
    let lines = split_lines(text);
    assert_eq!(lines, vec!["first", "second", "third"]);
    assert_eq!(join_lines(&lines), "first\nsecond\nthird");
    assert_eq!(split_lines(""), Vec::<String>::new());
    assert_eq!(split_lines("one\n"), vec!["one"]);
}

#[test]
fn test_default_config_text() {
    let text = Config::default_config_str();
    assert!(text.starts_with("# CommitKit Configuration"));
    assert!(text.contains("max_subject_len = 72"));
}
