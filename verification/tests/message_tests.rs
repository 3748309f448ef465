use commitkit::build_commit_message;
use commitkit::build_commit_message_with_emoji;
use commitkit::emoji::apply_emoji;
use commitkit::version::semantic_version;
use commitkit::version::version_string;
use commitkit::version::VERSION;

#[test]
fn test_build_commit_message_simple() {
    let message = build_commit_message("feat", "", "add new feature", "", "");
    assert_eq!(message, "feat: add new feature");
}

#[test]
fn test_build_commit_message_with_scope() {
    let message = build_commit_message("fix", "core", "resolve crash on startup", "", "");
    assert_eq!(message, "fix(core): resolve crash on startup");
}

#[test]
fn test_build_commit_message_with_body() {
    let message = build_commit_message(
        "feat",
        "ui",
        "add dark mode",
        "This adds support for dark mode\nAnd improves accessibility",
        "",
    );
    assert_eq!(
        message,
        "feat(ui): add dark mode\n\nThis adds support for dark mode\nAnd improves accessibility"
    );
}

#[test]
fn test_build_commit_message_full() {
    let message = build_commit_message(
        "fix",
        "api",
        "correct error handling",
        "Previously errors were being swallowed",
        "Fixes #123",
    );
    assert_eq!(
        message,
        "fix(api): correct error handling\n\nPreviously errors were being swallowed\n\nFixes #123"
    );
}

#[test]
fn test_build_commit_message_footer_after_newline_body() {
    let message = build_commit_message("fix", "", "correct error handling", "body ends\n", "Refs #9");
    assert_eq!(message, "fix: correct error handling\n\nbody ends\n\nRefs #9");
}

#[test]
fn test_build_commit_message_footer_without_body() {
    let message = build_commit_message("fix", "", "correct error handling", "", "Refs #9");
    assert_eq!(message, "fix: correct error handling\n\nRefs #9");
}

#[test]
fn test_emoji_insertion() {
    let message = "feat: add new feature";
    let with_emoji = apply_emoji("feat", message, true);
    assert_eq!(with_emoji, "feat: \u{2728} add new feature");
}

#[test]
fn test_emoji_disabled() {
    let message = "feat: add new feature";
    let with_emoji = apply_emoji("feat", message, false);
    assert_eq!(with_emoji, message);
}

#[test]
fn test_unknown_type() {
    let message = "unknown: some message";
    let with_emoji = apply_emoji("unknown", message, true);
    assert_eq!(with_emoji, message);
}

#[test]
fn test_emoji_first_colon_only() {
    let message = "feat: add parser: handle colons";
    let with_emoji = apply_emoji("feat", message, true);
    assert_eq!(with_emoji, "feat: \u{2728} add parser: handle colons");
}

#[test]
fn test_emoji_no_colon() {
    let message = "no separator here";
    let with_emoji = apply_emoji("feat", message, true);
    assert_eq!(with_emoji, message);
}

#[test]
fn test_build_with_emoji_flag() {
    let with_emoji = build_commit_message_with_emoji("fix", "core", "resolve crash", "", "", true);
    assert_eq!(with_emoji, "fix(core): \u{1f41b} resolve crash");
    let plain = build_commit_message_with_emoji("fix", "core", "resolve crash", "", "", false);
    assert_eq!(plain, "fix(core): resolve crash");
}

#[test]
fn test_version_string() {
    let version = version_string();
    assert!(!version.is_empty());
    assert!(version.contains(VERSION));
}

#[test]
fn test_semantic_version() {
    let version = semantic_version();
    assert_eq!(version, VERSION);
}
