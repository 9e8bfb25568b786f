use agent_skills_lint::skill::SkillFile;
use agent_skills_lint::{check_skill, display_path, fix_content, get_dir_name, needs_canonical_rename};
use agent_skills_lint::ValidationError;

#[test]
fn check_and_fix_skill_files() {
    // a document with no frontmatter, found under a lowercase file name
    let content = "# Title\n\nUse this skill to do X.\n";
    let skill = SkillFile {
        dir_path: "/tmp/my-skill".to_string(),
        file_path: "/tmp/my-skill/skill.md".to_string(),
        content: content.to_string(),
    };

    let errors = check_skill(&skill);
    assert!(errors
        .iter()
        .any(|err| matches!(err, ValidationError::NotUppercase)));

    assert!(needs_canonical_rename("skill.md"));
    assert!(!needs_canonical_rename("SKILL.md"));

    let result = fix_content(content, "my-skill");
    assert!(result.changed);
    assert!(result.errors.is_empty());
    let fixed = result.new_content.expect("fixed content");
    assert!(fixed.contains("name: \"my-skill\""));
    assert!(fixed.contains("description: \"Use this skill to do X.\""));
    assert!(fixed.ends_with('\n'));

    let fixed_skill = SkillFile {
        dir_path: "/tmp/my-skill".to_string(),
        file_path: "/tmp/my-skill/SKILL.md".to_string(),
        content: fixed,
    };
    let errors = check_skill(&fixed_skill);
    assert!(errors.is_empty(), "expected no violations, got {errors:?}");
}

#[test]
fn fix_skill_preserves_unknown_fields_and_metadata() {
    let content = "---\ndescription: A test skill\nmetadata:\n  version: 1.2\n  count: 5\nowner: team\n---\n# Title\n";
    let result = fix_content(content, "my-skill");
    assert!(result.changed);
    assert!(result.errors.is_empty());
    let fixed = result.new_content.expect("fixed content");
    assert!(fixed.contains("name: \"my-skill\""));
    assert!(fixed.contains("description: \"A test skill\""));
    assert!(fixed.contains("metadata:"), "fixed content:\n{fixed}");
    assert!(fixed.contains("  count: \"5\""));
    assert!(fixed.contains("  version: \"1.2\""));
    assert!(fixed.contains("owner: \"team\""));
}

#[test]
fn fix_strips_byte_order_mark() {
    let content = "\u{feff}---\nname: my-skill\ndescription: A test skill\n---\nBody\n";
    let result = fix_content(content, "my-skill");
    assert!(result.changed);
    assert!(result.errors.is_empty());
    let fixed = result.new_content.expect("content");
    assert!(!fixed.starts_with('\u{feff}'));
}

#[test]
fn fix_reports_parse_errors() {
    let content = "---\nname: [broken\n---\nBody\n";
    let result = fix_content(content, "my-skill");
    assert_eq!(result.errors.len(), 1);
    assert!(result.new_content.is_none());
}

#[test]
fn fix_overwrites_mismatched_name() {
    let content = "---\nname: other\ndescription: A test skill\n---\nBody\n";
    let result = fix_content(content, "my-skill");
    assert!(result.changed);
    let fixed = result.new_content.expect("content");
    assert!(fixed.contains("name: \"my-skill\""));
    assert!(!fixed.contains("other"));
}

#[test]
fn fix_backfills_description_from_body() {
    let content = "---\nname: my-skill\n---\nThe first body line.\n";
    let result = fix_content(content, "my-skill");
    assert!(result.changed);
    let fixed = result.new_content.expect("content");
    assert!(fixed.contains("description: \"The first body line.\""));
}

#[test]
fn fix_prunes_null_fields() {
    let content = "---\nname: my-skill\ndescription: A test skill\nlicense: null\n---\nBody\n";
    let result = fix_content(content, "my-skill");
    assert!(result.changed);
    let fixed = result.new_content.expect("content");
    assert!(!fixed.contains("license"));
}

#[test]
fn path_helpers() {
    assert_eq!(get_dir_name("/repo/skills/my-skill"), "my-skill");
    assert_eq!(get_dir_name("/repo/skills/my-skill/"), "my-skill");
    assert_eq!(get_dir_name("plain"), "plain");
    // current- and parent-directory components have no final component
    assert_eq!(get_dir_name(".."), "");
    assert_eq!(get_dir_name("a/.."), "");
    assert_eq!(get_dir_name("."), "");
    assert_eq!(get_dir_name("a/b/."), "b");
    assert_eq!(get_dir_name("a/b/.//"), "b");
    assert_eq!(get_dir_name("/"), "");
    assert_eq!(get_dir_name(".hidden"), ".hidden");
    assert_eq!(display_path("/repo/skills/my-skill", "/repo"), "skills/my-skill");
    // a trailing separator on the root is tolerated
    assert_eq!(display_path("/repo/skills/my-skill", "/repo/"), "skills/my-skill");
    assert_eq!(display_path("/repo", "/repo/"), "");
    assert_eq!(display_path("/repo/", "/repo"), "");
    assert_eq!(display_path("/x", "/"), "x");
    assert_eq!(display_path("/elsewhere/x", "/repo"), "/elsewhere/x");
    assert_eq!(display_path("/repo", "/repo"), "");
}
