use agent_skills_lint::mapping::MetaMap;
use agent_skills_lint::validate_metadata;
use agent_skills_lint::yaml::{Node, Scalar, Val};
use agent_skills_lint::{validate_tool_spec, ValidationError};

fn s(text: &str) -> Val {
    Val::Scalar(Scalar::Str(text.to_string()))
}

fn base_metadata() -> MetaMap {
    let mut metadata = MetaMap::new();
    metadata.insert("name".to_string(), s("my-skill"));
    metadata.insert("description".to_string(), s("A test skill"));
    metadata
}

#[test]
fn validate_metadata_missing_fields() {
    let mut metadata = MetaMap::new();
    metadata.insert("description".to_string(), s("A test skill"));
    let errors = validate_metadata(&metadata, None);
    assert!(errors
        .iter()
        .any(|err| matches!(err, ValidationError::MissingField(f) if f == "name")));

    let mut metadata = MetaMap::new();
    metadata.insert("name".to_string(), s("my-skill"));
    let errors = validate_metadata(&metadata, None);
    assert!(errors
        .iter()
        .any(|err| matches!(err, ValidationError::MissingField(f) if f == "description")));
}

#[test]
fn validate_name_rules() {
    let mut metadata = base_metadata();
    metadata.insert("name".to_string(), s("MySkill"));
    let errors = validate_metadata(&metadata, None);
    assert!(errors
        .iter()
        .any(|err| matches!(err, ValidationError::NameNotLowercase(_))));

    let mut metadata = base_metadata();
    metadata.insert("name".to_string(), s("-my-skill"));
    let errors = validate_metadata(&metadata, None);
    assert!(errors
        .iter()
        .any(|err| matches!(err, ValidationError::NameInvalidHyphen)));

    let mut metadata = base_metadata();
    metadata.insert("name".to_string(), s("my--skill"));
    let errors = validate_metadata(&metadata, None);
    assert!(errors
        .iter()
        .any(|err| matches!(err, ValidationError::NameConsecutiveHyphens)));

    let mut metadata = base_metadata();
    metadata.insert("name".to_string(), s("my_skill"));
    let errors = validate_metadata(&metadata, None);
    assert!(errors
        .iter()
        .any(|err| matches!(err, ValidationError::NameInvalidChars(_))));

    let long_name = "a".repeat(65);
    let mut metadata = base_metadata();
    metadata.insert("name".to_string(), s(&long_name));
    let errors = validate_metadata(&metadata, None);
    assert!(errors
        .iter()
        .any(|err| matches!(err, ValidationError::NameTooLong { limit: 64, actual: 65, .. })));
}

#[test]
fn validate_name_directory_match_and_i18n() {
    // a decomposed name validates against a precomposed directory name
    let errors = {
        let mut metadata = base_metadata();
        metadata.insert("name".to_string(), s("cafe\u{0301}"));
        validate_metadata(&metadata, Some("caf\u{00e9}"))
    };
    assert!(errors.is_empty(), "expected no violations, got {errors:?}");

    let errors = {
        let mut metadata = base_metadata();
        metadata.insert("name".to_string(), s("wrong-name"));
        validate_metadata(&metadata, Some("caf\u{00e9}"))
    };
    assert!(errors
        .iter()
        .any(|err| matches!(err, ValidationError::NameMismatch { .. })));
}

#[test]
fn validate_i18n_case() {
    let name = "\u{6280}\u{80fd}";
    let mut metadata = base_metadata();
    metadata.insert("name".to_string(), s(name));
    let errors = validate_metadata(&metadata, Some(name));
    assert!(errors.is_empty(), "expected no violations, got {errors:?}");

    let upper = "\u{041d}\u{0410}\u{0412}\u{042b}\u{041a}";
    let mut metadata = base_metadata();
    metadata.insert("name".to_string(), s(upper));
    let errors = validate_metadata(&metadata, None);
    assert!(errors
        .iter()
        .any(|err| matches!(err, ValidationError::NameNotLowercase(_))));
}

#[test]
fn validate_description_and_compatibility_limits() {
    let mut metadata = base_metadata();
    metadata.insert("description".to_string(), s(&"x".repeat(1025)));
    let errors = validate_metadata(&metadata, None);
    assert!(errors
        .iter()
        .any(|err| matches!(err, ValidationError::DescriptionTooLong { .. })));

    let mut metadata = base_metadata();
    metadata.insert("compatibility".to_string(), s(&"x".repeat(501)));
    let errors = validate_metadata(&metadata, None);
    assert!(errors
        .iter()
        .any(|err| matches!(err, ValidationError::CompatibilityTooLong { .. })));

    let mut metadata = base_metadata();
    metadata.insert(
        "compatibility".to_string(),
        Val::Scalar(Scalar::Num("1".to_string())),
    );
    let errors = validate_metadata(&metadata, None);
    assert!(errors
        .iter()
        .any(|err| matches!(err, ValidationError::InvalidType(f) if f == "compatibility")));
}

#[test]
fn validate_allowed_fields() {
    let mut metadata = base_metadata();
    metadata.insert("allowed-tools".to_string(), s("Bash(jq:*)"));
    let errors = validate_metadata(&metadata, None);
    assert!(errors.is_empty());

    let mut metadata = base_metadata();
    metadata.insert("owner".to_string(), s("me"));
    let errors = validate_metadata(&metadata, None);
    assert!(errors
        .iter()
        .any(|err| matches!(err, ValidationError::UnexpectedFields { fields } if fields == "owner")));
}

#[test]
fn test_validate_license_valid() {
    let mut metadata = base_metadata();
    metadata.insert("license".to_string(), s("MIT"));
    let errors = validate_metadata(&metadata, None);
    assert!(errors.is_empty());
}

#[test]
fn test_validate_license_empty() {
    let mut metadata = base_metadata();
    metadata.insert("license".to_string(), s(""));
    let errors = validate_metadata(&metadata, None);
    assert!(errors
        .iter()
        .any(|e| matches!(e, ValidationError::EmptyLicense)));
}

#[test]
fn test_validate_license_wrong_type() {
    let mut metadata = base_metadata();
    metadata.insert(
        "license".to_string(),
        Val::Scalar(Scalar::Num("123".to_string())),
    );
    let errors = validate_metadata(&metadata, None);
    assert!(errors
        .iter()
        .any(|e| matches!(e, ValidationError::InvalidType(f) if f == "license")));
}

#[test]
fn test_validate_allowed_tools_valid() {
    let mut metadata = base_metadata();
    metadata.insert("allowed-tools".to_string(), s("Bash(git:*)"));
    let errors = validate_metadata(&metadata, None);
    assert!(errors.is_empty());
}

#[test]
fn test_validate_allowed_tools_multiple() {
    let mut metadata = base_metadata();
    metadata.insert("allowed-tools".to_string(), s("Bash(git:*) Read Write"));
    let errors = validate_metadata(&metadata, None);
    assert!(errors.is_empty());
}

#[test]
fn test_validate_allowed_tools_wildcard() {
    let mut metadata = base_metadata();
    metadata.insert("allowed-tools".to_string(), s("*"));
    let errors = validate_metadata(&metadata, None);
    assert!(errors.is_empty());
}

#[test]
fn test_validate_allowed_tools_unbalanced_parens() {
    let mut metadata = base_metadata();
    metadata.insert("allowed-tools".to_string(), s("Bash(git:*"));
    let errors = validate_metadata(&metadata, None);
    assert!(errors.iter().any(
        |e| matches!(e, ValidationError::InvalidToolSpec { reason, .. } if reason.contains("unbalanced"))
    ));
}

#[test]
fn test_validate_allowed_tools_lowercase_tool_name_is_allowed() {
    let mut metadata = base_metadata();
    metadata.insert("allowed-tools".to_string(), s("mcp__playwright"));
    let errors = validate_metadata(&metadata, None);
    assert!(errors.is_empty());
}

#[test]
fn test_validate_allowed_tools_comma_delimited_rejected() {
    let mut metadata = base_metadata();
    metadata.insert("allowed-tools".to_string(), s("Bash(git:*),Read"));
    let errors = validate_metadata(&metadata, None);
    assert!(errors.iter().any(
        |e| matches!(e, ValidationError::InvalidToolSpec { reason, .. } if reason.contains("space-delimited"))
    ));
}

#[test]
fn test_validate_allowed_tools_array() {
    let mut metadata = base_metadata();
    metadata.insert(
        "allowed-tools".to_string(),
        Val::List(vec![
            Node::Scalar(Scalar::Str("Bash".to_string())),
            Node::Scalar(Scalar::Str("Read".to_string())),
        ]),
    );
    let errors = validate_metadata(&metadata, None);
    assert!(errors.is_empty());
}

#[test]
fn test_validate_allowed_tools_array_non_string_item() {
    let mut metadata = base_metadata();
    metadata.insert(
        "allowed-tools".to_string(),
        Val::List(vec![
            Node::Scalar(Scalar::Str("Bash".to_string())),
            Node::Scalar(Scalar::Num("3".to_string())),
        ]),
    );
    let errors = validate_metadata(&metadata, None);
    assert!(errors
        .iter()
        .any(|e| matches!(e, ValidationError::InvalidToolArrayItem { index: 1 })));
}

#[test]
fn test_validate_compatibility_empty() {
    let mut metadata = base_metadata();
    metadata.insert("compatibility".to_string(), s(""));
    let errors = validate_metadata(&metadata, None);
    assert!(errors
        .iter()
        .any(|e| matches!(e, ValidationError::EmptyField(f) if f == "compatibility")));
}

#[test]
fn test_validate_metadata_must_be_string_map() {
    let mut metadata = base_metadata();
    metadata.insert("metadata".to_string(), s("not-a-map"));
    let errors = validate_metadata(&metadata, None);
    assert!(errors
        .iter()
        .any(|e| matches!(e, ValidationError::MetadataNotMapping)));

    let pairs = vec![
        (
            Node::Scalar(Scalar::Num("1".to_string())),
            Node::Scalar(Scalar::Str("ok".to_string())),
        ),
        (Node::Scalar(Scalar::Str("nested".to_string())), Node::Other),
    ];
    let mut metadata = base_metadata();
    metadata.insert("metadata".to_string(), Val::Mapping(pairs));
    let errors = validate_metadata(&metadata, None);
    assert!(errors
        .iter()
        .any(|e| matches!(e, ValidationError::MetadataNonStringKey)));
    assert!(errors
        .iter()
        .any(|e| matches!(e, ValidationError::MetadataNonStringValue { key } if key == "nested")));
}

#[test]
fn validate_tool_spec_reasons() {
    assert!(validate_tool_spec("Bash(git:*)").is_none());
    assert!(validate_tool_spec("Read").is_none());
    let r = validate_tool_spec("Bash(git:*").unwrap();
    assert!(r.contains("unbalanced"));
    let r = validate_tool_spec("Bash(git)x").unwrap();
    assert!(r.contains("missing closing"));
    let r = validate_tool_spec("(x)").unwrap();
    assert!(r.contains("cannot be empty"));
}
