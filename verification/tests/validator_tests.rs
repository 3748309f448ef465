use commitkit::build_commit_message;
use commitkit::config::Prefix;
use commitkit::hooks::prepare_message;
use commitkit::hooks::CommitMessageValidator;
use commitkit::hooks::GitHookManager;
use commitkit::hooks::ValidationError;

#[test]
fn test_validate_ok() {
    let validator = CommitMessageValidator::new();
    assert!(validator.validate("feat(core): add a new feature").is_ok());
    assert!(validator.validate("fix: resolve crash on startup").is_ok());
}

#[test]
fn test_validate_first_line_only() {
    let validator = CommitMessageValidator::new();
    let message = "feat: a valid subject line\n\nbody text goes here";
    assert!(validator.validate(message).is_ok());
}

#[test]
fn test_validate_invalid_format() {
    let validator = CommitMessageValidator::new();
    assert!(matches!(validator.validate("no separator at all"), Err(ValidationError::InvalidFormat)));
    assert!(matches!(validator.validate(""), Err(ValidationError::InvalidFormat)));
    assert!(matches!(validator.validate("feat(): empty scope is refused"), Err(ValidationError::InvalidFormat)));
    assert!(matches!(validator.validate("feat:no space after colon"), Err(ValidationError::InvalidFormat)));
}

#[test]
fn test_validate_invalid_type() {
    let validator = CommitMessageValidator::new();
    assert!(matches!(
        validator.validate("wip: subject long enough here"),
        Err(ValidationError::InvalidType)
    ));
}

#[test]
fn test_validate_scope_required() {
    let validator = CommitMessageValidator::new().validate_scope(true);
    assert!(matches!(
        validator.validate("feat: subject long enough here"),
        Err(ValidationError::InvalidScope)
    ));
    assert!(validator.validate("feat(core): subject long enough here").is_ok());
}

#[test]
fn test_validate_subject_too_short() {
    let validator = CommitMessageValidator::new().min_subject_length(10);
    assert!(matches!(validator.validate("fix: x"), Err(ValidationError::SubjectTooShort)));
}

#[test]
fn test_validate_subject_too_long() {
    let validator = CommitMessageValidator::new().max_subject_length(20);
    assert!(matches!(
        validator.validate("fix: this subject has far too many characters in it"),
        Err(ValidationError::SubjectTooLong)
    ));
}

#[test]
fn test_validate_hyphenated_scope() {
    let validator = CommitMessageValidator::new();
    assert!(validator.validate("fix(my-scope): resolve crash on startup").is_ok());
}

#[test]
fn test_assembled_message_validates() {
    let validator = CommitMessageValidator::new();
    let message = build_commit_message("feat", "core", "resolve the crash", "", "");
    assert!(validator.validate(&message).is_ok());
}

#[test]
fn test_error_messages() {
    assert_eq!(
        ValidationError::InvalidFormat.message(),
        "Invalid format. Expected: <type>[(scope)]: <subject>"
    );
    assert_eq!(
        ValidationError::SubjectTooShort.message(),
        "Subject is too short. Make it more descriptive."
    );
}

fn sample_prefixes() -> Vec<Prefix> {
    vec![
        Prefix { title: "feat".to_string(), description: "A new feature".to_string() },
        Prefix { title: "chore".to_string(), description: "Other changes".to_string() },
    ]
}

#[test]
fn test_prepare_message_passthrough() {
    let prefixes = sample_prefixes();
    let prepared = prepare_message("fix: already conventional", &prefixes, false);
    assert_eq!(prepared, "fix: already conventional");
}

#[test]
fn test_prepare_message_adds_prefix() {
    let prefixes = sample_prefixes();
    let prepared = prepare_message("  just a plain message  ", &prefixes, false);
    assert_eq!(prepared, "chore: just a plain message");
}

#[test]
fn test_prepare_message_first_prefix_fallback() {
    let prefixes = vec![Prefix {
        title: "feat".to_string(),
        description: "A new feature".to_string(),
    }];
    let prepared = prepare_message("plain message", &prefixes, false);
    assert_eq!(prepared, "feat: plain message");
}

#[test]
fn test_prepare_message_with_emoji() {
    let prefixes = sample_prefixes();
    let prepared = prepare_message("plain message", &prefixes, true);
    assert_eq!(prepared, "chore: \u{1f9f9} plain message");
}

#[test]
fn test_hooks_dir() {
    let manager = GitHookManager::new("/repo");
    assert_eq!(manager.hooks_dir(), "/repo/.git/hooks");
}
