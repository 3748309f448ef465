use commitkit::config::Prefix;
use commitkit::template::collect_placeholders;
use commitkit::template::default_templates;
use commitkit::template::derive_commit_fields;
use commitkit::template::fill_template;
use commitkit::template::fill_template_parts;
use commitkit::template::CommitTemplate;
use commitkit::template::TemplateManager;

fn pairs(entries: &[(&str, &str)]) -> Vec<(String, String)> {
    let mut values: Vec<(String, String)> = Vec::new();
    for (key, value) in entries {
        values.push((key.to_string(), value.to_string()));
    }
    values
}

#[test]
fn test_fill_template() {
    let values = pairs(&[("name", "John"), ("age", "30")]);
    let template = "Hello, {name}! You are {age} years old.";
    let filled = fill_template(template, &values);
    assert_eq!(filled, "Hello, John! You are 30 years old.");
}

#[test]
fn test_fill_template_unknown_placeholder_stays() {
    let values = pairs(&[("a", "1")]);
    assert_eq!(fill_template("{a} {b}", &values), "1 {b}");
}

#[test]
fn test_fill_template_no_placeholders() {
    let values = pairs(&[("name", "John"), ("age", "30")]);
    let template = "A template without any placeholder.";
    assert_eq!(fill_template(template, &values), template);
}

#[test]
fn test_fill_template_repeated_placeholder() {
    let values = pairs(&[("x", "ab")]);
    assert_eq!(fill_template("{x}-{x}", &values), "ab-ab");
}

fn sample_template() -> CommitTemplate {
    CommitTemplate {
        name: "feature".to_string(),
        description: "Template for new features".to_string(),
        subject_template: "add {feature_name}".to_string(),
        body_template: Some("Adds {feature_name} so that {reason}".to_string()),
        footer_template: Some("Closes #{issue_number}".to_string()),
    }
}

#[test]
fn test_collect_placeholders_dedup_order() {
    let template = sample_template();
    let names = collect_placeholders(&template);
    assert_eq!(names, vec!["feature_name", "reason", "issue_number"]);
}

#[test]
fn test_fill_template_parts() {
    let template = sample_template();
    let values = pairs(&[
        ("feature_name", "dark mode"),
        ("reason", "users asked"),
        ("issue_number", "42"),
    ]);
    let (subject, body, footer) = fill_template_parts(&template, &values);
    assert_eq!(subject, "add dark mode");
    assert_eq!(body, "Adds dark mode so that users asked");
    assert_eq!(footer, "Closes #42");
}

fn sample_prefixes() -> Vec<Prefix> {
    vec![Prefix { title: "feat".to_string(), description: "A new feature".to_string() }]
}

#[test]
fn test_derive_commit_fields_with_prefix() {
    let prefixes = sample_prefixes();
    let (commit_type, scope, subject) = derive_commit_fields("fix(core): resolve it", &prefixes);
    assert_eq!(commit_type, "fix");
    assert_eq!(scope, "core");
    assert_eq!(subject, "resolve it");
}

#[test]
fn test_derive_commit_fields_without_prefix() {
    let prefixes = sample_prefixes();
    let (commit_type, scope, subject) = derive_commit_fields("plain subject text", &prefixes);
    assert_eq!(commit_type, "feat");
    assert_eq!(scope, "");
    assert_eq!(subject, "plain subject text");
}

#[test]
fn test_template_manager_add_get_delete() {
    let mut manager = TemplateManager::new();
    manager.add_template(sample_template());
    assert!(manager.get_template("feature").is_some());
    assert_eq!(manager.get_template("feature").unwrap().subject_template, "add {feature_name}");
    assert!(manager.get_template("missing").is_none());
    assert_eq!(manager.get_templates().len(), 1);

    let mut replacement = sample_template();
    replacement.subject_template = "introduce {feature_name}".to_string();
    manager.add_template(replacement);
    assert_eq!(manager.get_templates().len(), 1);
    assert_eq!(
        manager.get_template("feature").unwrap().subject_template,
        "introduce {feature_name}"
    );

    manager.delete_template("feature");
    assert!(manager.get_template("feature").is_none());
    assert_eq!(manager.get_templates().len(), 0);
}

#[test]
fn test_template_manager() {
    let mut manager = TemplateManager::new();
    for template in default_templates() {
        manager.add_template(template);
    }
    assert!(manager.get_template("feature").is_some());
    assert!(manager.get_template("bugfix").is_some());
    assert!(manager.get_template("refactor").is_some());
}
