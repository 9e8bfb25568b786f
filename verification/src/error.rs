//! Error and violation types.
//!
//! Parsing fails fast with a single [`ParseError`]; validation accumulates
//! every applicable [`ValidationError`]; fixing surfaces [`FixError`]s.
//! Rendering these as human- or machine-readable text is the caller's
//! responsibility: each variant carries the data a message needs.

use vstd::prelude::*;

verus! {

/// Why the frontmatter block of a document could not be parsed.
#[derive(Debug)]
pub enum ParseError {
    /// The document does not begin with a delimiter line.
    MissingFrontmatter,
    /// No closing delimiter line follows the opening one.
    UnclosedFrontmatter,
    /// The decoder rejected the block; carries its message.
    InvalidYaml(String),
    /// The block decoded to something other than a mapping.
    NotAMapping,
    /// A top-level key of the mapping is not a string.
    NonStringKey,
}

/// Ghost image of [`ParseError`].
pub enum ParseErrorV {
    MissingFrontmatter,
    UnclosedFrontmatter,
    InvalidYaml(Seq<char>),
    NotAMapping,
    NonStringKey,
}

impl View for ParseError {
    type V = ParseErrorV;

    open spec fn view(&self) -> ParseErrorV {
        match self {
            ParseError::MissingFrontmatter => ParseErrorV::MissingFrontmatter,
            ParseError::UnclosedFrontmatter => ParseErrorV::UnclosedFrontmatter,
            ParseError::InvalidYaml(m) => ParseErrorV::InvalidYaml(m@),
            ParseError::NotAMapping => ParseErrorV::NotAMapping,
            ParseError::NonStringKey => ParseErrorV::NonStringKey,
        }
    }
}

/// One rule failure reported by validation.
#[derive(Debug)]
pub enum ValidationError {
    /// The required skill file is missing; carries the expected file name.
    MissingFile(String),
    /// The given path does not exist.
    PathNotFound(String),
    /// The given path is not a directory.
    NotADirectory(String),
    /// The skill file name is not the canonical upper-case form.
    NotUppercase,
    /// The frontmatter could not be parsed at all.
    Parse(ParseError),
    /// A required field is absent; carries the field name.
    MissingField(String),
    /// A field that must be a non-empty string is empty or not a string.
    EmptyField(String),
    /// A field has the wrong type; carries the field name.
    InvalidType(String),
    /// The nested metadata field is not a mapping.
    MetadataNotMapping,
    /// The nested metadata mapping has a non-string key.
    MetadataNonStringKey,
    /// The nested metadata mapping has a non-string value under `key`.
    MetadataNonStringValue { key: String },
    /// The normalized name has more characters than the limit allows.
    NameTooLong { name: String, limit: usize, actual: usize },
    /// The normalized name differs from its own lowercase form.
    NameNotLowercase(String),
    /// The name starts or ends with a hyphen.
    NameInvalidHyphen,
    /// The name contains two hyphens in a row.
    NameConsecutiveHyphens,
    /// The name holds a character that is neither alphanumeric nor a hyphen.
    NameInvalidChars(String),
    /// The directory name does not match the skill name.
    NameMismatch { dir: String, name: String },
    /// The description has more characters than the limit allows.
    DescriptionTooLong { limit: usize, actual: usize },
    /// The compatibility note has more characters than the limit allows.
    CompatibilityTooLong { limit: usize, actual: usize },
    /// The license field is present but blank.
    EmptyLicense,
    /// One tool specification is malformed; carries the offending text.
    InvalidToolSpec { spec: String, reason: String },
    /// A sequence item of the tools field is not a string.
    InvalidToolArrayItem { index: usize },
    /// The tools field is neither a string nor a sequence.
    InvalidToolsType,
    /// Fields outside the schema are present; carries their names, joined.
    UnexpectedFields { fields: String },
}

/// Ghost image of [`ValidationError`].
pub enum ValidationErrorV {
    MissingFile(Seq<char>),
    PathNotFound(Seq<char>),
    NotADirectory(Seq<char>),
    NotUppercase,
    Parse(ParseErrorV),
    MissingField(Seq<char>),
    EmptyField(Seq<char>),
    InvalidType(Seq<char>),
    MetadataNotMapping,
    MetadataNonStringKey,
    MetadataNonStringValue { key: Seq<char> },
    NameTooLong { name: Seq<char>, limit: int, actual: int },
    NameNotLowercase(Seq<char>),
    NameInvalidHyphen,
    NameConsecutiveHyphens,
    NameInvalidChars(Seq<char>),
    NameMismatch { dir: Seq<char>, name: Seq<char> },
    DescriptionTooLong { limit: int, actual: int },
    CompatibilityTooLong { limit: int, actual: int },
    EmptyLicense,
    InvalidToolSpec { spec: Seq<char>, reason: Seq<char> },
    InvalidToolArrayItem { index: int },
    InvalidToolsType,
    UnexpectedFields { fields: Seq<char> },
}

impl View for ValidationError {
    type V = ValidationErrorV;

    open spec fn view(&self) -> ValidationErrorV {
        match self {
            ValidationError::MissingFile(s) => ValidationErrorV::MissingFile(s@),
            ValidationError::PathNotFound(s) => ValidationErrorV::PathNotFound(s@),
            ValidationError::NotADirectory(s) => ValidationErrorV::NotADirectory(s@),
            ValidationError::NotUppercase => ValidationErrorV::NotUppercase,
            ValidationError::Parse(e) => ValidationErrorV::Parse(e@),
            ValidationError::MissingField(s) => ValidationErrorV::MissingField(s@),
            ValidationError::EmptyField(s) => ValidationErrorV::EmptyField(s@),
            ValidationError::InvalidType(s) => ValidationErrorV::InvalidType(s@),
            ValidationError::MetadataNotMapping => ValidationErrorV::MetadataNotMapping,
            ValidationError::MetadataNonStringKey => ValidationErrorV::MetadataNonStringKey,
            ValidationError::MetadataNonStringValue { key } => ValidationErrorV::MetadataNonStringValue { key: key@ },
            ValidationError::NameTooLong { name, limit, actual } => ValidationErrorV::NameTooLong {
                name: name@,
                limit: *limit as int,
                actual: *actual as int,
            },
            ValidationError::NameNotLowercase(s) => ValidationErrorV::NameNotLowercase(s@),
            ValidationError::NameInvalidHyphen => ValidationErrorV::NameInvalidHyphen,
            ValidationError::NameConsecutiveHyphens => ValidationErrorV::NameConsecutiveHyphens,
            ValidationError::NameInvalidChars(s) => ValidationErrorV::NameInvalidChars(s@),
            ValidationError::NameMismatch { dir, name } => ValidationErrorV::NameMismatch {
                dir: dir@,
                name: name@,
            },
            ValidationError::DescriptionTooLong { limit, actual } => ValidationErrorV::DescriptionTooLong {
                limit: *limit as int,
                actual: *actual as int,
            },
            ValidationError::CompatibilityTooLong { limit, actual } => ValidationErrorV::CompatibilityTooLong {
                limit: *limit as int,
                actual: *actual as int,
            },
            ValidationError::EmptyLicense => ValidationErrorV::EmptyLicense,
            ValidationError::InvalidToolSpec { spec, reason } => ValidationErrorV::InvalidToolSpec {
                spec: spec@,
                reason: reason@,
            },
            ValidationError::InvalidToolArrayItem { index } => ValidationErrorV::InvalidToolArrayItem {
                index: *index as int,
            },
            ValidationError::InvalidToolsType => ValidationErrorV::InvalidToolsType,
            ValidationError::UnexpectedFields { fields } => ValidationErrorV::UnexpectedFields {
                fields: fields@,
            },
        }
    }
}

/// The view of a collected violation list.
pub open spec fn errs_view(v: Seq<ValidationError>) -> Seq<ValidationErrorV> {
    crate::text::views_of(v)
}

/// Why a document could not be fixed, or a fix not persisted.
#[derive(Debug)]
pub enum FixError {
    /// The given path does not exist.
    PathNotFound(String),
    /// The given path is not a directory.
    NotADirectory(String),
    /// Renaming the skill file failed; carries the path and the OS message.
    RenameFailed { path: String, message: String },
    /// The required skill file is missing.
    MissingFile,
    /// Writing the fixed content failed; carries the path and the OS message.
    WriteFailed { path: String, message: String },
    /// The frontmatter could not be parsed.
    Parse(ParseError),
    /// A value has a shape the formatter cannot render.
    UnsupportedValueType,
}

/// Ghost image of [`FixError`].
pub enum FixErrorV {
    PathNotFound(Seq<char>),
    NotADirectory(Seq<char>),
    RenameFailed { path: Seq<char>, message: Seq<char> },
    MissingFile,
    WriteFailed { path: Seq<char>, message: Seq<char> },
    Parse(ParseErrorV),
    UnsupportedValueType,
}

impl View for FixError {
    type V = FixErrorV;

    open spec fn view(&self) -> FixErrorV {
        match self {
            FixError::PathNotFound(s) => FixErrorV::PathNotFound(s@),
            FixError::NotADirectory(s) => FixErrorV::NotADirectory(s@),
            FixError::RenameFailed { path, message } => FixErrorV::RenameFailed {
                path: path@,
                message: message@,
            },
            FixError::MissingFile => FixErrorV::MissingFile,
            FixError::WriteFailed { path, message } => FixErrorV::WriteFailed {
                path: path@,
                message: message@,
            },
            FixError::Parse(e) => FixErrorV::Parse(e@),
            FixError::UnsupportedValueType => FixErrorV::UnsupportedValueType,
        }
    }
}

} // verus!
