use agent_skills_lint::mapping::MetaMap;
use agent_skills_lint::yaml::{Scalar, Val};
use agent_skills_lint::{fix_content, format_frontmatter, parse_frontmatter, validate_metadata};
use agent_skills_lint::ValidationError;

fn s(text: &str) -> Val {
    Val::Scalar(Scalar::Str(text.to_string()))
}

#[test]
fn fix_is_idempotent() {
    // applying the fixer to its own output changes nothing further
    let inputs = [
        "# Title\n\nUse this skill to do X.\n",
        "---\nname: other\ndescription: A test skill\n---\nBody\n",
        "---\ndescription: 'true'\nmetadata:\n  version: 1.2\nowner: team\n---\n# Title\n\nText.\n",
        "\u{feff}---\nname: my-skill\ndescription: A test skill\nlicense: null\n---\nBody\n",
    ];
    for input in inputs {
        let first = fix_content(input, "my-skill");
        assert!(first.errors.is_empty(), "first fix failed for {input:?}");
        let fixed = first.new_content.expect("content");
        let second = fix_content(&fixed, "my-skill");
        assert!(second.errors.is_empty(), "second fix failed for {fixed:?}");
        assert!(
            !second.changed,
            "second fix still changed {fixed:?} into {:?}",
            second.new_content
        );
    }
}

#[test]
fn quoting_keeps_lookalike_scalars_as_strings() {
    // a string that resembles a boolean, number or null round-trips as the
    // same string, never coerced
    for lookalike in ["true", "123", "null", "", "1.5", "yes"] {
        let mut metadata = MetaMap::new();
        metadata.insert("name".to_string(), s("my-skill"));
        metadata.insert("description".to_string(), s(lookalike));
        let block = format_frontmatter(&metadata).expect("format");
        let document = format!("{block}\nBody\n");
        let (parsed, _body) = parse_frontmatter(&document).expect("parse");
        match parsed.get("description") {
            Some(Val::Scalar(Scalar::Str(text))) => assert_eq!(text, lookalike),
            other => panic!("description of {lookalike:?} re-parsed as {other:?}"),
        }
    }
}

#[test]
fn nfkc_equivalence_both_directions() {
    // decomposed name against precomposed directory, and the reverse
    let decomposed = "cafe\u{0301}";
    let precomposed = "caf\u{00e9}";
    for (name, dir) in [(decomposed, precomposed), (precomposed, decomposed)] {
        let mut metadata = MetaMap::new();
        metadata.insert("name".to_string(), s(name));
        metadata.insert("description".to_string(), s("A test skill"));
        let errors = validate_metadata(&metadata, Some(dir));
        assert!(errors.is_empty(), "{name:?} vs {dir:?} gave {errors:?}");
    }
}

#[test]
fn delimiter_in_value_does_not_truncate() {
    let content = "---\nname: my-skill\ndescription: \"a --- b\"\n---\nAfter\n";
    let (metadata, body) = parse_frontmatter(content).expect("parse");
    match metadata.get("description") {
        Some(Val::Scalar(Scalar::Str(text))) => assert_eq!(text, "a --- b"),
        other => panic!("unexpected description {other:?}"),
    }
    assert_eq!(body, "After");
}

#[test]
fn validation_reports_both_missing_fields() {
    let metadata = MetaMap::new();
    let errors = validate_metadata(&metadata, None);
    assert!(errors
        .iter()
        .any(|e| matches!(e, ValidationError::MissingField(f) if f == "name")));
    assert!(errors
        .iter()
        .any(|e| matches!(e, ValidationError::MissingField(f) if f == "description")));
}

#[test]
fn minimal_valid_skill() {
    let content = "---\nname: my-skill\ndescription: A test skill\n---\nBody\n";
    let (metadata, _body) = parse_frontmatter(content).expect("parse");
    let errors = validate_metadata(&metadata, Some("my-skill"));
    assert!(errors.is_empty(), "expected valid, got {errors:?}");
}

#[test]
fn case_rename_fix_synthesizes_frontmatter() {
    // lowercase file, heading and paragraph only: the fix renames and
    // synthesizes name and description
    assert!(agent_skills_lint::needs_canonical_rename("skill.md"));
    let content = "# Title\n\nFirst paragraph line.\n";
    let result = fix_content(content, "my-skill");
    assert!(result.changed);
    assert!(result.errors.is_empty());
    let fixed = result.new_content.expect("content");
    assert!(fixed.contains("name: \"my-skill\""));
    assert!(fixed.contains("description: \"First paragraph line.\""));
}

#[test]
fn comma_delimited_tool_spec_rejected_once() {
    let mut metadata = MetaMap::new();
    metadata.insert("name".to_string(), s("my-skill"));
    metadata.insert("description".to_string(), s("A test skill"));
    metadata.insert("allowed-tools".to_string(), s("Bash(git:*),Read"));
    let errors = validate_metadata(&metadata, None);
    // exactly one tool-spec violation, and it cites the space-delimited
    // requirement: the per-token checks do not also fire
    let tool_errors: Vec<_> = errors
        .iter()
        .filter(|e| matches!(e, ValidationError::InvalidToolSpec { .. }))
        .collect();
    assert_eq!(tool_errors.len(), 1);
    assert!(matches!(
        tool_errors[0],
        ValidationError::InvalidToolSpec { reason, .. } if reason.contains("space-delimited")
    ));
}

#[test]
fn oversized_description_reports_limit_and_actual() {
    let mut metadata = MetaMap::new();
    metadata.insert("name".to_string(), s("my-skill"));
    metadata.insert("description".to_string(), s(&"x".repeat(1025)));
    let errors = validate_metadata(&metadata, None);
    let long_errors: Vec<_> = errors
        .iter()
        .filter(|e| matches!(e, ValidationError::DescriptionTooLong { .. }))
        .collect();
    assert_eq!(long_errors.len(), 1);
    assert!(matches!(
        long_errors[0],
        ValidationError::DescriptionTooLong { limit: 1024, actual: 1025 }
    ));
}
