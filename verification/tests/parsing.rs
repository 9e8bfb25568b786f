use agent_skills_lint::mapping::MetaMap;
use agent_skills_lint::parse_frontmatter;
use agent_skills_lint::yaml::{Scalar, Val};
use agent_skills_lint::{trim_line_ending, ParseError};

fn get_str(m: &MetaMap, key: &str) -> Option<String> {
    match m.get(key) {
        Some(Val::Scalar(Scalar::Str(s))) => Some(s.clone()),
        _ => None,
    }
}

#[test]
fn parse_frontmatter_valid() {
    let content = "---\nname: my-skill\ndescription: A test skill\n---\n# Title\n\nBody\n";
    let (metadata, body) = parse_frontmatter(content).expect("frontmatter parsed");
    assert_eq!(get_str(&metadata, "name"), Some("my-skill".to_string()));
    assert_eq!(body, "# Title\n\nBody");
}

#[test]
fn parse_frontmatter_bom() {
    let content = "\u{feff}---\nname: my-skill\ndescription: A test skill\n---\nBody";
    let (metadata, body) = parse_frontmatter(content).expect("frontmatter parsed");
    assert_eq!(get_str(&metadata, "name"), Some("my-skill".to_string()));
    assert_eq!(body, "Body");
}

#[test]
fn parse_frontmatter_errors() {
    let missing = "No frontmatter here";
    assert!(matches!(
        parse_frontmatter(missing).unwrap_err(),
        ParseError::MissingFrontmatter
    ));

    let unclosed = "---\nname: my-skill\ndescription: A test skill\n";
    assert!(matches!(
        parse_frontmatter(unclosed).unwrap_err(),
        ParseError::UnclosedFrontmatter
    ));

    let invalid = "---\nname: [invalid\ndescription: broken\n---\nBody";
    assert!(matches!(
        parse_frontmatter(invalid).unwrap_err(),
        ParseError::InvalidYaml(_)
    ));

    let non_mapping = "---\n- just\n- a\n- list\n---\nBody";
    assert!(matches!(
        parse_frontmatter(non_mapping).unwrap_err(),
        ParseError::NotAMapping
    ));
}

#[test]
fn parse_frontmatter_non_string_key() {
    let content = "---\n1: a\nname: my-skill\ndescription: A test skill\n---\nBody";
    let err = parse_frontmatter(content).unwrap_err();
    assert!(matches!(err, ParseError::NonStringKey));
}

#[test]
fn parse_frontmatter_empty_block_is_empty_mapping() {
    let (metadata, body) = parse_frontmatter("---\n---\nBody\n").expect("parsed");
    assert_eq!(metadata.len(), 0);
    assert_eq!(body, "Body");
}

#[test]
fn parse_frontmatter_crlf_lines() {
    let content = "---\r\nname: my-skill\r\ndescription: A test skill\r\n---\r\nBody\r\n";
    let (metadata, body) = parse_frontmatter(content).expect("parsed");
    assert_eq!(get_str(&metadata, "name"), Some("my-skill".to_string()));
    assert_eq!(body, "Body");
}

#[test]
fn parse_frontmatter_delimiter_inside_quoted_value() {
    // the three-character delimiter inside a quoted scalar does not close
    // the block early
    let content = "---\nname: my-skill\ndescription: \"contains --- inside\"\n---\nBody\n";
    let (metadata, body) = parse_frontmatter(content).expect("parsed");
    assert_eq!(
        get_str(&metadata, "description"),
        Some("contains --- inside".to_string())
    );
    assert_eq!(body, "Body");
}

#[test]
fn parse_frontmatter_number_value_stays_number() {
    let content = "---\ncount: 5\nname: my-skill\ndescription: A test skill\n---\nBody";
    let (metadata, _) = parse_frontmatter(content).expect("parsed");
    assert!(matches!(
        metadata.get("count"),
        Some(Val::Scalar(Scalar::Num(n))) if n == "5"
    ));
}

#[test]
fn trim_line_ending_strips_newline_then_carriage_return() {
    assert_eq!(trim_line_ending(&vec!['a', '\r', '\n']), vec!['a']);
    assert_eq!(trim_line_ending(&vec!['a', '\n']), vec!['a']);
    assert_eq!(trim_line_ending(&vec!['a', '\r']), vec!['a']);
    assert_eq!(trim_line_ending(&vec!['a']), vec!['a']);
}
