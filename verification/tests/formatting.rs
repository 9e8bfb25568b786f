use agent_skills_lint::mapping::MetaMap;
use agent_skills_lint::yaml::{Node, Scalar, Val};
use agent_skills_lint::{derive_description, format_frontmatter, format_key, format_scalar};

fn s(text: &str) -> Val {
    Val::Scalar(Scalar::Str(text.to_string()))
}

#[test]
fn derive_description_skips_code_blocks() {
    let body = "\n# Title\n\n```bash\necho hi\n```\n\nUse this skill to do X.\n";
    assert_eq!(derive_description(body), "Use this skill to do X.");

    let fallback = "# Title\n\n```bash\necho hi\n```\n";
    assert_eq!(derive_description(fallback), "Title");
}

#[test]
fn derive_description_placeholder_when_empty() {
    assert_eq!(
        derive_description(""),
        "Describe what this skill does and when to use it"
    );
}

#[test]
fn derive_description_matches_fence_kind_and_length() {
    // a longer tilde fence is not closed by a shorter one
    let body = "~~~~\ntext inside\n~~~\nstill inside\n~~~~\nFirst real line.\n";
    assert_eq!(derive_description(body), "First real line.");
}

#[test]
fn format_frontmatter_orders_and_quotes() {
    let mut metadata = MetaMap::new();
    metadata.insert("description".to_string(), s("Use: this # now"));
    metadata.insert("name".to_string(), s("my-skill"));
    metadata.insert("license".to_string(), s("MIT"));
    metadata.insert("compatibility".to_string(), s("Rust 1.75+"));
    metadata.insert("allowed-tools".to_string(), s("Bash(git:*)"));
    let meta_map = vec![
        (
            Node::Scalar(Scalar::Str("z".to_string())),
            Node::Scalar(Scalar::Str("2".to_string())),
        ),
        (
            Node::Scalar(Scalar::Str("a".to_string())),
            Node::Scalar(Scalar::Str("1".to_string())),
        ),
    ];
    metadata.insert("metadata".to_string(), Val::Mapping(meta_map));
    metadata.insert("owner".to_string(), s("me"));

    let formatted = format_frontmatter(&metadata).expect("format frontmatter");
    let expected = [
        "---",
        "name: \"my-skill\"",
        "description: \"Use: this # now\"",
        "license: \"MIT\"",
        "compatibility: \"Rust 1.75+\"",
        "allowed-tools: \"Bash(git:*)\"",
        "metadata:",
        "  a: \"1\"",
        "  z: \"2\"",
        "owner: \"me\"",
        "---",
    ]
    .join("\n");
    assert_eq!(formatted, expected);
}

#[test]
fn format_frontmatter_skips_empty_metadata_and_renders_numbers_bare() {
    let mut metadata = MetaMap::new();
    metadata.insert("name".to_string(), s("a"));
    metadata.insert("description".to_string(), s("b"));
    metadata.insert("metadata".to_string(), Val::Mapping(Vec::new()));
    metadata.insert(
        "count".to_string(),
        Val::Scalar(Scalar::Num("5".to_string())),
    );
    let formatted = format_frontmatter(&metadata).expect("format");
    assert_eq!(
        formatted,
        "---\nname: \"a\"\ndescription: \"b\"\ncount: 5\n---"
    );
}

#[test]
fn format_frontmatter_rejects_unsupported_value() {
    let mut metadata = MetaMap::new();
    metadata.insert("name".to_string(), s("a"));
    metadata.insert("description".to_string(), Val::Other);
    assert!(format_frontmatter(&metadata).is_err());
}

#[test]
fn format_scalar_quotes_only_when_needed() {
    assert_eq!(format_scalar("plain"), "plain");
    assert_eq!(format_scalar("has: colon"), "\"has: colon\"");
    assert_eq!(format_scalar("-leading"), "\"-leading\"");
    assert_eq!(format_scalar(""), "\"\"");
    assert_eq!(format_scalar("trailing "), "\"trailing \"");
}

#[test]
fn format_key_quotes_non_simple_keys() {
    assert_eq!(format_key("simple-key_1.x"), "simple-key_1.x");
    assert_eq!(format_key("has space"), "\"has space\"");
    assert_eq!(format_key(""), "\"\"");
}

#[test]
fn format_quoting_escapes_controls() {
    assert_eq!(format_scalar("a\tb"), "\"a\\tb\"");
    assert_eq!(format_scalar("a\nb"), "\"a\\nb\"");
    assert_eq!(
        agent_skills_lint::format_string_value("a\"b\\c"),
        "\"a\\\"b\\\\c\""
    );
    assert_eq!(
        agent_skills_lint::format_string_value("a\u{1}b"),
        "\"a\\u0001b\""
    );
}
