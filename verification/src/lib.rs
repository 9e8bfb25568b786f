//! Lint and repair the frontmatter of agent skill documents.
//!
//! A skill document is a Markdown file whose head is a key-value block
//! fenced by `---` delimiter lines. This crate parses that block into an
//! ordered mapping, validates it against a fixed field schema, and
//! regenerates it in a canonical form.

use vstd::prelude::*;

pub mod error;
pub mod fix;
pub mod formatting;
pub mod laws;
pub mod mapping;
pub mod parse;
pub mod paths;
pub mod skill;
pub mod text;
pub mod unicode;
pub mod validation;
pub mod yaml;

pub use error::{FixError, ParseError, ValidationError};
pub use fix::{check_skill, fix_content, normalize_metadata_mapping, FixResult};
pub use formatting::{
    derive_description, format_frontmatter, format_key, format_scalar, format_string_value,
    mapping_to_string_map, parse_code_fence, value_to_string,
};
pub use mapping::MetaMap;
pub use parse::{parse_frontmatter, split_frontmatter, trim_line_ending};
pub use paths::{display_path, get_dir_name, needs_canonical_rename};
pub use skill::SkillFile;
pub use validation::{
    validate_compatibility, validate_description, validate_metadata, validate_name,
    validate_tool_spec,
};
pub use yaml::{Decoded, Node, Scalar, Val};

verus! {

/// Greatest number of Unicode scalar values allowed in a skill name.
pub const MAX_SKILL_NAME_LENGTH: usize = 64;

/// Greatest number of Unicode scalar values allowed in a description.
pub const MAX_DESCRIPTION_LENGTH: usize = 1024;

/// Greatest number of Unicode scalar values allowed in a compatibility note.
pub const MAX_COMPATIBILITY_LENGTH: usize = 500;

} // verus!
