use commitkit::stats::tally_commit_lines;
use commitkit::stats::CommitAnalyzer;
use commitkit::strutil::split_on_char;

fn count_of(counts: &Vec<(String, u64)>, key: &str) -> Option<u64> {
    counts.iter().find(|p| p.0 == key).map(|p| p.1)
}

#[test]
fn test_tally_commit_lines() {
    let lines: Vec<String> = vec![
        "abc|Alice|alice@example.com|2024-01-02|feat(core): add stuff".to_string(),
        "def|Bob|bob@example.com|2024-01-02|fix: repair things".to_string(),
        "".to_string(),
        "not a log line".to_string(),
        "ghi|Alice|alice@example.com|2024-01-03|not conventional".to_string(),
    ];
    let stats = tally_commit_lines(&lines);
    assert_eq!(stats.total_commits, 3);
    assert_eq!(count_of(&stats.type_counts, "feat"), Some(1));
    assert_eq!(count_of(&stats.type_counts, "fix"), Some(1));
    assert_eq!(count_of(&stats.type_counts, "not"), None);
    assert_eq!(count_of(&stats.scope_counts, "core"), Some(1));
    assert_eq!(count_of(&stats.contributors, "Alice"), Some(2));
    assert_eq!(count_of(&stats.contributors, "Bob"), Some(1));
    assert_eq!(count_of(&stats.commits_by_date, "2024-01-02"), Some(2));
    assert_eq!(count_of(&stats.commits_by_date, "2024-01-03"), Some(1));
}

#[test]
fn test_tally_empty() {
    let stats = tally_commit_lines(&Vec::new());
    assert_eq!(stats.total_commits, 0);
    assert!(stats.type_counts.is_empty());
}

#[test]
fn test_split_on_char() {
    assert_eq!(split_on_char("a|b|c", '|'), vec!["a", "b", "c"]);
    assert_eq!(split_on_char("a|", '|'), vec!["a", ""]);
    assert_eq!(split_on_char("", '|'), vec![""]);
    assert_eq!(split_on_char("no separator", '|'), vec!["no separator"]);
}

#[test]
fn test_commit_analyzer_path() {
    let analyzer = CommitAnalyzer::new("/some/repo");
    assert_eq!(analyzer.repo_path, "/some/repo");
}
