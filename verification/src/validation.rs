//! Metadata validation against the fixed field schema.
//!
//! Validation accumulates every applicable violation in one pass: unknown
//! fields first, then each schema field's rules in schema order. Nothing
//! short-circuits across fields.

use vstd::prelude::*;

use crate::error::{errs_view, ValidationError, ValidationErrorV};
use crate::mapping::{assoc_get, MetaMap};
use crate::text::{
    blank, chars_to_string, chunks_view, copy_range, is_blank, is_ws_char, lemma_views_of_concat,
    lemma_views_of_push, str_eq, str_to_chars, trim_spec, trim_ws, ws_char,
};
use crate::unicode::{alnum, lower, nfkc, nfkc_str};
use crate::yaml::{Node, NodeV, Scalar, ScalarV, Val, ValV};
use crate::{MAX_COMPATIBILITY_LENGTH, MAX_DESCRIPTION_LENGTH, MAX_SKILL_NAME_LENGTH};

verus! {

/// The six recognized field names.
pub open spec fn allowed_field(k: Seq<char>) -> bool {
    ||| k == "name"@
    ||| k == "description"@
    ||| k == "license"@
    ||| k == "allowed-tools"@
    ||| k == "metadata"@
    ||| k == "compatibility"@
}

/// The six field names are pairwise distinct.
pub proof fn lemma_field_keys_distinct()
    ensures
        "name"@ != "description"@,
        "name"@ != "license"@,
        "name"@ != "allowed-tools"@,
        "name"@ != "metadata"@,
        "name"@ != "compatibility"@,
        "description"@ != "license"@,
        "description"@ != "allowed-tools"@,
        "description"@ != "metadata"@,
        "description"@ != "compatibility"@,
        "license"@ != "allowed-tools"@,
        "license"@ != "metadata"@,
        "license"@ != "compatibility"@,
        "allowed-tools"@ != "metadata"@,
        "allowed-tools"@ != "compatibility"@,
        "metadata"@ != "compatibility"@,
{
    reveal_strlit("name");
    reveal_strlit("description");
    reveal_strlit("license");
    reveal_strlit("allowed-tools");
    reveal_strlit("metadata");
    reveal_strlit("compatibility");
    assert("name"@.len() == 4);
    assert("description"@.len() == 11);
    assert("license"@.len() == 7);
    assert("allowed-tools"@.len() == 13);
    assert("metadata"@.len() == 8);
    assert("compatibility"@.len() == 13);
    assert("allowed-tools"@[0] == 'a' && "compatibility"@[0] == 'c');
}

/// Whether a field name belongs to the schema.
pub fn is_allowed_field(k: &str) -> (r: bool)
    ensures
        r == allowed_field(k@),
{
    str_eq(k, "name") || str_eq(k, "description") || str_eq(k, "license") || str_eq(
        k,
        "allowed-tools",
    ) || str_eq(k, "metadata") || str_eq(k, "compatibility")
}

/// The keys of `m` outside the schema, in mapping order.
pub open spec fn unknown_keys(m: Seq<(Seq<char>, ValV)>) -> Seq<Seq<char>>
    decreases m.len(),
{
    if m.len() == 0 {
        Seq::empty()
    } else {
        let rest = unknown_keys(m.drop_last());
        if allowed_field(m.last().0) {
            rest
        } else {
            rest.push(m.last().0)
        }
    }
}

/// The separator between listed field names.
pub open spec fn comma_sep() -> Seq<char> {
    seq![',', ' ']
}

/// Field names joined with a comma separator.
pub open spec fn join_keys(ks: Seq<Seq<char>>) -> Seq<char>
    decreases ks.len(),
{
    if ks.len() == 0 {
        Seq::empty()
    } else if ks.len() == 1 {
        ks[0]
    } else {
        join_keys(ks.drop_last()) + comma_sep() + ks.last()
    }
}

/// One aggregate violation if any unknown field is present.
pub open spec fn unknown_violations(m: Seq<(Seq<char>, ValV)>) -> Seq<ValidationErrorV> {
    if unknown_keys(m).len() == 0 {
        Seq::empty()
    } else {
        seq![ValidationErrorV::UnexpectedFields { fields: join_keys(unknown_keys(m)) }]
    }
}

/// Two hyphens in a row somewhere.
pub open spec fn has_double_hyphen(n: Seq<char>) -> bool {
    exists|i: int| 0 <= i < n.len() - 1 && #[trigger] n[i] == '-' && n[i + 1] == '-'
}

/// A character outside letters, digits and hyphen somewhere.
pub open spec fn has_invalid_name_char(n: Seq<char>) -> bool {
    exists|i: int| 0 <= i < n.len() && !(alnum(n[i]) || n[i] == '-')
}

/// The rules on a present, non-blank name, applied to its NFKC-normalized,
/// trimmed form.
pub open spec fn name_rule_violations(s: Seq<char>, dir: Option<Seq<char>>) -> Seq<
    ValidationErrorV,
> {
    let n = nfkc(trim_spec(s));
    (if n.len() > MAX_SKILL_NAME_LENGTH as int {
        seq![
            ValidationErrorV::NameTooLong {
                name: n,
                limit: MAX_SKILL_NAME_LENGTH as int,
                actual: n.len() as int,
            },
        ]
    } else {
        Seq::empty()
    }) + (if n != lower(n) {
        seq![ValidationErrorV::NameNotLowercase(n)]
    } else {
        Seq::empty()
    }) + (if n.len() > 0 && (n[0] == '-' || n.last() == '-') {
        seq![ValidationErrorV::NameInvalidHyphen]
    } else {
        Seq::empty()
    }) + (if has_double_hyphen(n) {
        seq![ValidationErrorV::NameConsecutiveHyphens]
    } else {
        Seq::empty()
    }) + (if has_invalid_name_char(n) {
        seq![ValidationErrorV::NameInvalidChars(n)]
    } else {
        Seq::empty()
    }) + (match dir {
        Some(d) => if nfkc(d) != n {
            seq![ValidationErrorV::NameMismatch { dir: d, name: n }]
        } else {
            Seq::empty()
        },
        None => Seq::empty(),
    })
}

/// The name field: required, a non-blank string, then the name rules.
pub open spec fn name_violations(m: Seq<(Seq<char>, ValV)>, dir: Option<Seq<char>>) -> Seq<
    ValidationErrorV,
> {
    match assoc_get(m, "name"@) {
        None => seq![ValidationErrorV::MissingField("name"@)],
        Some(v) => name_field_violations(v, dir),
    }
}

/// What a present name value contributes.
pub open spec fn name_field_violations(v: ValV, dir: Option<Seq<char>>) -> Seq<ValidationErrorV> {
    match v {
        ValV::Scalar(ScalarV::Str(s)) => if !is_blank(s) {
            name_rule_violations(s, dir)
        } else {
            seq![ValidationErrorV::EmptyField("name"@)]
        },
        _ => seq![ValidationErrorV::EmptyField("name"@)],
    }
}

/// The rules on a present, non-blank description.
pub open spec fn description_rule_violations(s: Seq<char>) -> Seq<ValidationErrorV> {
    if is_blank(s) {
        seq![ValidationErrorV::EmptyField("description"@)]
    } else if s.len() > MAX_DESCRIPTION_LENGTH as int {
        seq![
            ValidationErrorV::DescriptionTooLong {
                limit: MAX_DESCRIPTION_LENGTH as int,
                actual: s.len() as int,
            },
        ]
    } else {
        Seq::empty()
    }
}

/// The description field: required, a non-blank string, length-limited.
pub open spec fn description_violations(m: Seq<(Seq<char>, ValV)>) -> Seq<ValidationErrorV> {
    match assoc_get(m, "description"@) {
        None => seq![ValidationErrorV::MissingField("description"@)],
        Some(v) => description_field_violations(v),
    }
}

/// What a present description value contributes.
pub open spec fn description_field_violations(v: ValV) -> Seq<ValidationErrorV> {
    match v {
        ValV::Scalar(ScalarV::Str(s)) => if !is_blank(s) {
            description_rule_violations(s)
        } else {
            seq![ValidationErrorV::EmptyField("description"@)]
        },
        _ => seq![ValidationErrorV::EmptyField("description"@)],
    }
}

/// The license field: if present, a string, and not blank.
pub open spec fn license_violations(m: Seq<(Seq<char>, ValV)>) -> Seq<ValidationErrorV> {
    match assoc_get(m, "license"@) {
        None => Seq::empty(),
        Some(v) => license_value_violations(v),
    }
}

/// What a present license value contributes.
pub open spec fn license_value_violations(v: ValV) -> Seq<ValidationErrorV> {
    match v {
        ValV::Scalar(ScalarV::Str(s)) => if is_blank(s) {
            seq![ValidationErrorV::EmptyLicense]
        } else {
            Seq::empty()
        },
        _ => seq![ValidationErrorV::InvalidType("license"@)],
    }
}

/// The rules on a present compatibility string.
pub open spec fn compatibility_rule_violations(s: Seq<char>) -> Seq<ValidationErrorV> {
    if is_blank(s) {
        seq![ValidationErrorV::EmptyField("compatibility"@)]
    } else if s.len() > MAX_COMPATIBILITY_LENGTH as int {
        seq![
            ValidationErrorV::CompatibilityTooLong {
                limit: MAX_COMPATIBILITY_LENGTH as int,
                actual: s.len() as int,
            },
        ]
    } else {
        Seq::empty()
    }
}

/// The compatibility field: if present, a string, non-blank, length-limited.
pub open spec fn compatibility_violations(m: Seq<(Seq<char>, ValV)>) -> Seq<ValidationErrorV> {
    match assoc_get(m, "compatibility"@) {
        None => Seq::empty(),
        Some(v) => compatibility_value_violations(v),
    }
}

/// What a present compatibility value contributes.
pub open spec fn compatibility_value_violations(v: ValV) -> Seq<ValidationErrorV> {
    match v {
        ValV::Scalar(ScalarV::Str(s)) => compatibility_rule_violations(s),
        _ => seq![ValidationErrorV::InvalidType("compatibility"@)],
    }
}

/// What one nested metadata entry contributes.
pub open spec fn metadata_entry_violations(p: (NodeV, NodeV)) -> Seq<ValidationErrorV> {
    match p.0 {
        NodeV::Scalar(ScalarV::Str(k)) => match p.1 {
            NodeV::Scalar(ScalarV::Str(_)) => Seq::empty(),
            _ => seq![ValidationErrorV::MetadataNonStringValue { key: k }],
        },
        _ => seq![ValidationErrorV::MetadataNonStringKey],
    }
}

/// Violations of the nested metadata entries, accumulated in order.
pub open spec fn metadata_pairs_violations(pairs: Seq<(NodeV, NodeV)>) -> Seq<ValidationErrorV>
    decreases pairs.len(),
{
    if pairs.len() == 0 {
        Seq::empty()
    } else {
        metadata_pairs_violations(pairs.drop_last()) + metadata_entry_violations(pairs.last())
    }
}

/// The metadata field: if present, a mapping of strings to strings.
pub open spec fn metadata_field_violations(m: Seq<(Seq<char>, ValV)>) -> Seq<ValidationErrorV> {
    match assoc_get(m, "metadata"@) {
        None => Seq::empty(),
        Some(v) => metadata_value_violations(v),
    }
}

/// What a present metadata value contributes.
pub open spec fn metadata_value_violations(v: ValV) -> Seq<ValidationErrorV> {
    match v {
        ValV::Mapping(pairs) => metadata_pairs_violations(pairs),
        _ => seq![ValidationErrorV::MetadataNotMapping],
    }
}

/// The first non-whitespace index at or after `from`, or the length.
pub open spec fn skip_ws(s: Seq<char>, from: int) -> int
    decreases s.len() - from,
        when 0 <= from <= s.len()
{
    if from < 0 || from >= s.len() {
        s.len() as int
    } else if !is_ws_char(s[from]) {
        from
    } else {
        skip_ws(s, from + 1)
    }
}

pub proof fn lemma_skip_ws(s: Seq<char>, from: int)
    requires
        0 <= from <= s.len(),
    ensures
        from <= skip_ws(s, from) <= s.len(),
        forall|j: int| from <= j < skip_ws(s, from) ==> is_ws_char(s[j]),
        skip_ws(s, from) < s.len() ==> !is_ws_char(s[skip_ws(s, from)]),
    decreases s.len() - from,
{
    if from < s.len() && is_ws_char(s[from]) {
        lemma_skip_ws(s, from + 1);
    }
}

/// The first whitespace index at or after `from`, or the length.
pub open spec fn token_end(s: Seq<char>, from: int) -> int
    decreases s.len() - from,
        when 0 <= from <= s.len()
{
    if from < 0 || from >= s.len() {
        s.len() as int
    } else if is_ws_char(s[from]) {
        from
    } else {
        token_end(s, from + 1)
    }
}

pub proof fn lemma_token_end(s: Seq<char>, from: int)
    requires
        0 <= from <= s.len(),
    ensures
        from <= token_end(s, from) <= s.len(),
        forall|j: int| from <= j < token_end(s, from) ==> !is_ws_char(s[j]),
        token_end(s, from) < s.len() ==> is_ws_char(s[token_end(s, from)]),
    decreases s.len() - from,
{
    if from < s.len() && !is_ws_char(s[from]) {
        lemma_token_end(s, from + 1);
    }
}

/// The whitespace-separated tokens at or after `from`.
pub open spec fn tokens_from(s: Seq<char>, from: int) -> Seq<Seq<char>>
    decreases s.len() - from,
        when 0 <= from <= s.len()
        via tokens_from_decreases
{
    if from < 0 || from >= s.len() {
        Seq::empty()
    } else {
        let a = skip_ws(s, from);
        if a >= s.len() {
            Seq::empty()
        } else {
            let e = token_end(s, a);
            seq![s.subrange(a, e)] + tokens_from(s, e)
        }
    }
}

#[via_fn]
proof fn tokens_from_decreases(s: Seq<char>, from: int) {
    if 0 <= from && from < s.len() {
        lemma_skip_ws(s, from);
        let a = skip_ws(s, from);
        if a < s.len() {
            lemma_token_end(s, a);
        }
    }
}

/// The whitespace-separated tokens of a string.
pub open spec fn tokens(s: Seq<char>) -> Seq<Seq<char>> {
    tokens_from(s, 0)
}

/// How many times `c` occurs in `s`.
pub open spec fn count_char(s: Seq<char>, c: char) -> int
    decreases s.len(),
{
    if s.len() == 0 {
        0
    } else {
        count_char(s.drop_last(), c) + if s.last() == c {
            1int
        } else {
            0int
        }
    }
}

/// Whether `c` occurs in `s`.
pub open spec fn contains_char(s: Seq<char>, c: char) -> bool {
    exists|i: int| 0 <= i < s.len() && s[i] == c
}

/// The first index of `c` at or after `from`, or the length.
pub open spec fn find_char(s: Seq<char>, from: int, c: char) -> int
    decreases s.len() - from,
        when 0 <= from <= s.len()
{
    if from < 0 || from >= s.len() {
        s.len() as int
    } else if s[from] == c {
        from
    } else {
        find_char(s, from + 1, c)
    }
}

pub proof fn lemma_find_char(s: Seq<char>, from: int, c: char)
    requires
        0 <= from <= s.len(),
    ensures
        from <= find_char(s, from, c) <= s.len(),
        forall|j: int| from <= j < find_char(s, from, c) ==> s[j] != c,
        find_char(s, from, c) < s.len() ==> s[find_char(s, from, c)] == c,
    decreases s.len() - from,
{
    if from < s.len() && s[from] != c {
        lemma_find_char(s, from + 1, c);
    }
}

/// Why one tool specification is rejected, if it is.
pub open spec fn tool_spec_reason(t: Seq<char>) -> Option<Seq<char>> {
    if count_char(t, '(') != count_char(t, ')') {
        Some("unbalanced parentheses"@)
    } else if find_char(t, 0, '(') < t.len() {
        if !(t.len() > 0 && t.last() == ')') {
            Some("invalid tool pattern: missing closing ')'"@)
        } else if is_blank(t.subrange(0, find_char(t, 0, '('))) {
            Some("tool name cannot be empty"@)
        } else {
            None
        }
    } else {
        None
    }
}

/// What one token contributes.
pub open spec fn token_violations(t: Seq<char>) -> Seq<ValidationErrorV> {
    match tool_spec_reason(t) {
        Some(reason) => seq![ValidationErrorV::InvalidToolSpec { spec: t, reason }],
        None => Seq::empty(),
    }
}

/// Violations of each whitespace-separated token, in order.
pub open spec fn tokens_violations(ts: Seq<Seq<char>>) -> Seq<ValidationErrorV>
    decreases ts.len(),
{
    if ts.len() == 0 {
        Seq::empty()
    } else {
        tokens_violations(ts.drop_last()) + token_violations(ts.last())
    }
}

/// The rules on a string-typed tools field. A comma anywhere is one
/// delimiter violation for the whole value, and the per-token checks are
/// then skipped: exactly one tool-spec violation cites the space-delimited
/// requirement, never a second one for an unsplit token.
pub open spec fn tools_string_violations(t: Seq<char>) -> Seq<ValidationErrorV> {
    (if is_blank(t) {
        seq![ValidationErrorV::EmptyField("allowed-tools"@)]
    } else {
        Seq::empty()
    }) + (if contains_char(t, ',') {
        seq![
            ValidationErrorV::InvalidToolSpec {
                spec: t,
                reason: "tools must be space-delimited, not comma-delimited"@,
            },
        ]
    } else {
        tokens_violations(tokens(t))
    })
}

/// Violations of each sequence item, in order: every item must be a string.
pub open spec fn tools_items_violations(items: Seq<NodeV>, upto: int) -> Seq<ValidationErrorV>
    decreases upto,
{
    if upto <= 0 {
        Seq::empty()
    } else {
        tools_items_violations(items, upto - 1) + (match items[upto - 1] {
            NodeV::Scalar(ScalarV::Str(_)) => Seq::<ValidationErrorV>::empty(),
            _ => seq![ValidationErrorV::InvalidToolArrayItem { index: upto - 1 }],
        })
    }
}

/// The tools field: if present, a space-delimited string or a sequence of
/// strings.
pub open spec fn tools_violations(m: Seq<(Seq<char>, ValV)>) -> Seq<ValidationErrorV> {
    match assoc_get(m, "allowed-tools"@) {
        None => Seq::empty(),
        Some(v) => tools_value_violations(v),
    }
}

/// What a present tools value contributes.
pub open spec fn tools_value_violations(v: ValV) -> Seq<ValidationErrorV> {
    match v {
        ValV::Scalar(ScalarV::Str(t)) => tools_string_violations(t),
        ValV::List(items) => tools_items_violations(items, items.len() as int),
        _ => seq![ValidationErrorV::InvalidToolsType],
    }
}

/// The view of an optional directory name.
pub open spec fn opt_str_view(d: Option<&str>) -> Option<Seq<char>> {
    match d {
        Some(s) => Some(s@),
        None => None,
    }
}

/// Everything validation reports, in order: unknown fields first, then each
/// schema field's rules.
pub open spec fn validate_spec(m: Seq<(Seq<char>, ValV)>, dir: Option<Seq<char>>) -> Seq<
    ValidationErrorV,
> {
    unknown_violations(m) + name_violations(m, dir) + description_violations(m)
        + license_violations(m) + compatibility_violations(m) + metadata_field_violations(m)
        + tools_violations(m)
}


/// Scan for two hyphens in a row.
fn scan_double_hyphen(v: &Vec<char>) -> (r: bool)
    ensures
        r == has_double_hyphen(v@),
{
    if v.len() < 2 {
        proof {
            if has_double_hyphen(v@) {
                let i = choose|i: int|
                    0 <= i < v@.len() - 1 && #[trigger] v@[i] == '-' && v@[i + 1] == '-';
            }
        }
        return false;
    }
    let mut i: usize = 0;
    while i < v.len() - 1
        invariant
            v@.len() >= 2,
            0 <= i <= v@.len() - 1,
            forall|j: int| 0 <= j < i ==> !(#[trigger] v@[j] == '-' && v@[j + 1] == '-'),
        decreases v.len() - i,
    {
        if v[i] == '-' && v[i + 1] == '-' {
            proof {
                assert(v@[i as int] == '-' && v@[i as int + 1] == '-');
            }
            return true;
        }
        i = i + 1;
    }
    proof {
        if has_double_hyphen(v@) {
            let i = choose|i: int|
                0 <= i < v@.len() - 1 && #[trigger] v@[i] == '-' && v@[i + 1] == '-';
        }
    }
    false
}

/// Scan for a character outside letters, digits and hyphen.
fn scan_invalid_name_char(v: &Vec<char>) -> (r: bool)
    ensures
        r == has_invalid_name_char(v@),
{
    let mut i: usize = 0;
    while i < v.len()
        invariant
            0 <= i <= v@.len(),
            forall|j: int| 0 <= j < i ==> (alnum(#[trigger] v@[j]) || v@[j] == '-'),
        decreases v.len() - i,
    {
        let c = v[i];
        if !(c.is_alphanumeric() || c == '-') {
            proof {
                assert(!(alnum(v@[i as int]) || v@[i as int] == '-'));
            }
            return true;
        }
        i = i + 1;
    }
    proof {
        if has_invalid_name_char(v@) {
            let i = choose|i: int| 0 <= i < v@.len() && !(alnum(v@[i]) || v@[i] == '-');
        }
    }
    false
}

/// Check a present, non-blank name against the name rules.
///
/// The rules apply to the NFKC-normalized, trimmed form; the violations
/// carry that normalized form.
#[verifier::rlimit(100)]
pub fn validate_name(name: &str, dir_name: Option<&str>) -> (r: Vec<ValidationError>)
    ensures
        errs_view(r@) == (if is_blank(name@) {
            seq![ValidationErrorV::EmptyField("name"@)]
        } else {
            name_rule_violations(name@, opt_str_view(dir_name))
        }),
{
    let nc = str_to_chars(name);
    if blank(&nc) {
        let mut out: Vec<ValidationError> = Vec::new();
        out.push(ValidationError::EmptyField("name".to_owned()));
        proof {
            assert(errs_view(out@) =~= seq![ValidationErrorV::EmptyField("name"@)]);
        }
        return out;
    }
    let trimmed = trim_ws(&nc);
    let tstr = chars_to_string(&trimmed);
    let norm = nfkc_str(tstr.as_str());
    let n = str_to_chars(norm.as_str());
    let ghost nv = nfkc(trim_spec(name@));
    proof {
        assert(n@ == nv);
    }
    let mut out: Vec<ValidationError> = Vec::new();
    let ghost c1: Seq<ValidationErrorV> = if nv.len() > MAX_SKILL_NAME_LENGTH as int {
        seq![
            ValidationErrorV::NameTooLong {
                name: nv,
                limit: MAX_SKILL_NAME_LENGTH as int,
                actual: nv.len() as int,
            },
        ]
    } else {
        Seq::empty()
    };
    if n.len() > MAX_SKILL_NAME_LENGTH {
        out.push(
            ValidationError::NameTooLong {
                name: norm.clone(),
                limit: MAX_SKILL_NAME_LENGTH,
                actual: n.len(),
            },
        );
    }
    proof {
        assert(errs_view(out@) =~= c1);
    }
    let ghost c2: Seq<ValidationErrorV> = if nv != lower(nv) {
        seq![ValidationErrorV::NameNotLowercase(nv)]
    } else {
        Seq::empty()
    };
    let low = norm.as_str().to_lowercase();
    if !str_eq(norm.as_str(), low.as_str()) {
        let err = ValidationError::NameNotLowercase(norm.clone());
        let ghost e = err;
        let ghost before = out@;
        out.push(err);
        proof {
            lemma_views_of_push(before, e);
            assert(errs_view(out@) =~= c1 + c2);
        }
    }
    proof {
        assert(errs_view(out@) =~= c1 + c2);
    }
    let ghost c3: Seq<ValidationErrorV> = if nv.len() > 0 && (nv[0] == '-' || nv.last() == '-') {
        seq![ValidationErrorV::NameInvalidHyphen]
    } else {
        Seq::empty()
    };
    if n.len() > 0 && (n[0] == '-' || n[n.len() - 1] == '-') {
        out.push(ValidationError::NameInvalidHyphen);
    }
    proof {
        assert(errs_view(out@) =~= c1 + c2 + c3);
    }
    let ghost c4: Seq<ValidationErrorV> = if has_double_hyphen(nv) {
        seq![ValidationErrorV::NameConsecutiveHyphens]
    } else {
        Seq::empty()
    };
    if scan_double_hyphen(&n) {
        out.push(ValidationError::NameConsecutiveHyphens);
    }
    proof {
        assert(errs_view(out@) =~= c1 + c2 + c3 + c4);
    }
    let ghost c5: Seq<ValidationErrorV> = if has_invalid_name_char(nv) {
        seq![ValidationErrorV::NameInvalidChars(nv)]
    } else {
        Seq::empty()
    };
    if scan_invalid_name_char(&n) {
        out.push(ValidationError::NameInvalidChars(norm.clone()));
    }
    proof {
        assert(errs_view(out@) =~= c1 + c2 + c3 + c4 + c5);
    }
    let ghost c6: Seq<ValidationErrorV> = match opt_str_view(dir_name) {
        Some(d) => if nfkc(d) != nv {
            seq![ValidationErrorV::NameMismatch { dir: d, name: nv }]
        } else {
            Seq::empty()
        },
        None => Seq::empty(),
    };
    match dir_name {
        Some(d) => {
            let dn = nfkc_str(d);
            if !str_eq(dn.as_str(), norm.as_str()) {
                out.push(ValidationError::NameMismatch { dir: d.to_owned(), name: norm });
            }
        },
        None => {},
    }
    proof {
        assert(errs_view(out@) =~= c1 + c2 + c3 + c4 + c5 + c6);
        assert(c1 + c2 + c3 + c4 + c5 + c6 =~= name_rule_violations(
            name@,
            opt_str_view(dir_name),
        ));
    }
    out
}

/// Check a description string: non-blank, at most the character limit.
pub fn validate_description(description: &str) -> (r: Vec<ValidationError>)
    ensures
        errs_view(r@) == description_rule_violations(description@),
{
    let dc = str_to_chars(description);
    let mut out: Vec<ValidationError> = Vec::new();
    if blank(&dc) {
        out.push(ValidationError::EmptyField("description".to_owned()));
        proof {
            assert(errs_view(out@) =~= description_rule_violations(description@));
        }
        return out;
    }
    if dc.len() > MAX_DESCRIPTION_LENGTH {
        out.push(
            ValidationError::DescriptionTooLong { limit: MAX_DESCRIPTION_LENGTH, actual: dc.len() },
        );
    }
    proof {
        assert(errs_view(out@) =~= description_rule_violations(description@));
    }
    out
}

/// Check a compatibility string: non-blank, at most the character limit.
pub fn validate_compatibility(compatibility: &str) -> (r: Vec<ValidationError>)
    ensures
        errs_view(r@) == compatibility_rule_violations(compatibility@),
{
    let cc = str_to_chars(compatibility);
    let mut out: Vec<ValidationError> = Vec::new();
    if blank(&cc) {
        out.push(ValidationError::EmptyField("compatibility".to_owned()));
        proof {
            assert(errs_view(out@) =~= compatibility_rule_violations(compatibility@));
        }
        return out;
    }
    if cc.len() > MAX_COMPATIBILITY_LENGTH {
        out.push(
            ValidationError::CompatibilityTooLong {
                limit: MAX_COMPATIBILITY_LENGTH,
                actual: cc.len(),
            },
        );
    }
    proof {
        assert(errs_view(out@) =~= compatibility_rule_violations(compatibility@));
    }
    out
}

/// Check a present license value.
fn validate_license(v: &Val) -> (r: Vec<ValidationError>)
    ensures
        errs_view(r@) == license_value_violations(v@),
{
    let mut out: Vec<ValidationError> = Vec::new();
    match v {
        Val::Scalar(Scalar::Str(s)) => {
            let sc = str_to_chars(s.as_str());
            if blank(&sc) {
                out.push(ValidationError::EmptyLicense);
            }
        },
        _ => {
            out.push(ValidationError::InvalidType("license".to_owned()));
        },
    }
    proof {
        assert(errs_view(out@) =~= license_value_violations(v@));
    }
    out
}

/// Check a present nested metadata value: a mapping whose keys and values
/// are all strings; violations accumulate per offending entry.
fn validate_metadata_field(v: &Val) -> (r: Vec<ValidationError>)
    ensures
        errs_view(r@) == metadata_value_violations(v@),
{
    let mut out: Vec<ValidationError> = Vec::new();
    match v {
        Val::Mapping(pairs) => {
            let ghost pv = crate::yaml::node_pairs_view(pairs@);
            proof {
                assert(pv.len() == pairs@.len());
                assert(pv.subrange(0, 0) =~= Seq::<(NodeV, NodeV)>::empty());
                assert(errs_view(out@) =~= metadata_pairs_violations(pv.subrange(0, 0)));
            }
            let mut i: usize = 0;
            while i < pairs.len()
                invariant
                    0 <= i <= pairs@.len(),
                    pv == crate::yaml::node_pairs_view(pairs@),
                    pv.len() == pairs@.len(),
                    errs_view(out@) == metadata_pairs_violations(pv.subrange(0, i as int)),
                decreases pairs.len() - i,
            {
                let ghost before = out@;
                proof {
                    assert(pv[i as int] == (pairs@[i as int].0@, pairs@[i as int].1@));
                    assert(pv.subrange(0, i + 1).drop_last() =~= pv.subrange(0, i as int));
                    assert(pv.subrange(0, i + 1).last() == pv[i as int]);
                }
                match &pairs[i].0 {
                    Node::Scalar(Scalar::Str(k)) => match &pairs[i].1 {
                        Node::Scalar(Scalar::Str(_)) => {},
                        _ => {
                            let err = ValidationError::MetadataNonStringValue { key: k.clone() };
                            let ghost e = err;
                            out.push(err);
                            proof {
                                lemma_views_of_push(before, e);
                            }
                        },
                    },
                    _ => {
                        let err = ValidationError::MetadataNonStringKey;
                        let ghost e = err;
                        out.push(err);
                        proof {
                            lemma_views_of_push(before, e);
                        }
                    },
                }
                proof {
                    assert(errs_view(out@) =~= metadata_pairs_violations(pv.subrange(0, i + 1)));
                }
                i = i + 1;
            }
            proof {
                assert(pv.subrange(0, pv.len() as int) =~= pv);
            }
        },
        _ => {
            out.push(ValidationError::MetadataNotMapping);
            proof {
                assert(errs_view(out@) =~= metadata_value_violations(v@));
            }
        },
    }
    out
}

/// The first non-whitespace index at or after `from`.
fn skip_ws_at(v: &Vec<char>, from: usize) -> (a: usize)
    requires
        from <= v@.len(),
    ensures
        a == skip_ws(v@, from as int),
        from <= a <= v@.len(),
{
    let mut i: usize = from;
    while i < v.len()
        invariant
            from <= i <= v@.len(),
            forall|j: int| from <= j < i ==> is_ws_char(v@[j]),
        decreases v.len() - i,
    {
        if !ws_char(v[i]) {
            proof {
                lemma_skip_ws_value(v@, from as int, i as int);
            }
            return i;
        }
        i = i + 1;
    }
    proof {
        lemma_skip_ws_value(v@, from as int, v@.len() as int);
    }
    v.len()
}

proof fn lemma_skip_ws_value(s: Seq<char>, from: int, a: int)
    requires
        0 <= from <= a <= s.len(),
        forall|j: int| from <= j < a ==> is_ws_char(s[j]),
        a < s.len() ==> !is_ws_char(s[a]),
    ensures
        skip_ws(s, from) == a,
    decreases a - from,
{
    if from < a {
        lemma_skip_ws_value(s, from + 1, a);
    }
}

/// The first whitespace index at or after `from`.
fn token_end_at(v: &Vec<char>, from: usize) -> (e: usize)
    requires
        from <= v@.len(),
    ensures
        e == token_end(v@, from as int),
        from <= e <= v@.len(),
{
    let mut i: usize = from;
    while i < v.len()
        invariant
            from <= i <= v@.len(),
            forall|j: int| from <= j < i ==> !is_ws_char(v@[j]),
        decreases v.len() - i,
    {
        if ws_char(v[i]) {
            proof {
                lemma_token_end_value(v@, from as int, i as int);
            }
            return i;
        }
        i = i + 1;
    }
    proof {
        lemma_token_end_value(v@, from as int, v@.len() as int);
    }
    v.len()
}

proof fn lemma_token_end_value(s: Seq<char>, from: int, e: int)
    requires
        0 <= from <= e <= s.len(),
        forall|j: int| from <= j < e ==> !is_ws_char(s[j]),
        e < s.len() ==> is_ws_char(s[e]),
    ensures
        token_end(s, from) == e,
    decreases e - from,
{
    if from < e {
        lemma_token_end_value(s, from + 1, e);
    }
}

/// Split a string into its whitespace-separated tokens.
fn split_tokens(v: &Vec<char>) -> (r: Vec<Vec<char>>)
    ensures
        chunks_view(r@) == tokens(v@),
{
    let mut out: Vec<Vec<char>> = Vec::new();
    let mut i: usize = 0;
    proof {
        assert(chunks_view(out@) =~= Seq::<Seq<char>>::empty());
        assert(tokens(v@) == chunks_view(out@) + tokens_from(v@, 0));
    }
    loop
        invariant
            0 <= i <= v@.len(),
            tokens(v@) == chunks_view(out@) + tokens_from(v@, i as int),
        ensures
            tokens(v@) == chunks_view(out@),
        decreases v@.len() - i,
    {
        let a = skip_ws_at(v, i);
        proof {
            lemma_skip_ws_extend(v@, i as int);
            if a >= v@.len() {
                assert(tokens_from(v@, i as int) =~= Seq::<Seq<char>>::empty());
                assert(tokens(v@) =~= chunks_view(out@) + Seq::<Seq<char>>::empty());
                assert(chunks_view(out@) + Seq::<Seq<char>>::empty() =~= chunks_view(out@));
            }
        }
        if a >= v.len() {
            break ;
        }
        let e = token_end_at(v, a);
        proof {
            lemma_skip_ws(v@, a as int);
            lemma_token_end(v@, a as int);
            assert(skip_ws(v@, a as int) == a);
            assert(tokens_from(v@, i as int) == seq![v@.subrange(a as int, e as int)]
                + tokens_from(v@, e as int)) by {
                assert(tokens_from(v@, i as int) == tokens_from(v@, a as int));
            }
        }
        let tok = copy_range(v, a, e);
        let ghost before = out@;
        out.push(tok);
        proof {
            assert(chunks_view(out@) =~= chunks_view(before).push(v@.subrange(a as int, e as int)))
                by {
                assert forall|j: int| 0 <= j < out@.len() implies chunks_view(out@)[j]
                    == chunks_view(before).push(v@.subrange(a as int, e as int))[j] by {
                    if j < before.len() {
                        assert(out@[j] == before[j]);
                        assert(chunks_view(before)[j] == before[j]@);
                    }
                }
            }
            assert(chunks_view(before).push(v@.subrange(a as int, e as int)) =~= chunks_view(before)
                + seq![v@.subrange(a as int, e as int)]);
            assert(tokens(v@) == chunks_view(out@) + tokens_from(v@, e as int));
        }
        proof {
            assert(e > a) by {
                lemma_token_end(v@, a as int);
            }
        }
        i = e;
    }
    out
}

/// Skipping whitespace from a position where a scan stopped reaches the
/// same token start.
proof fn lemma_skip_ws_extend(s: Seq<char>, i: int)
    requires
        0 <= i <= s.len(),
    ensures
        tokens_from(s, i) == tokens_from(s, skip_ws(s, i)),
    decreases s.len() - i,
{
    if i < s.len() {
        if is_ws_char(s[i]) {
            lemma_skip_ws_extend(s, i + 1);
            assert(tokens_from(s, i) == tokens_from(s, i + 1)) by {
                if i + 1 >= s.len() {
                    assert(skip_ws(s, i) == skip_ws(s, i + 1));
                    assert(tokens_from(s, i) =~= Seq::<Seq<char>>::empty());
                } else {
                    assert(skip_ws(s, i) == skip_ws(s, i + 1));
                    lemma_skip_ws(s, i + 1);
                    if skip_ws(s, i + 1) >= s.len() {
                        assert(tokens_from(s, i) =~= Seq::<Seq<char>>::empty());
                        assert(tokens_from(s, i + 1) =~= Seq::<Seq<char>>::empty());
                    }
                }
            }
        } else {
            assert(skip_ws(s, i) == i);
        }
    } else {
        assert(skip_ws(s, i) == s.len());
    }
}

/// Count the occurrences of one character.
fn count_char_in(v: &Vec<char>, c: char) -> (n: usize)
    ensures
        n == count_char(v@, c),
{
    let mut n: usize = 0;
    let mut i: usize = 0;
    proof {
        assert(v@.subrange(0, 0) =~= Seq::<char>::empty());
    }
    while i < v.len()
        invariant
            0 <= i <= v@.len(),
            n <= i,
            n == count_char(v@.subrange(0, i as int), c),
        decreases v.len() - i,
    {
        proof {
            assert(v@.subrange(0, i + 1).drop_last() =~= v@.subrange(0, i as int));
            assert(v@.subrange(0, i + 1).last() == v@[i as int]);
        }
        if v[i] == c {
            n = n + 1;
        }
        i = i + 1;
    }
    proof {
        assert(v@.subrange(0, v@.len() as int) =~= v@);
    }
    n
}

/// Scan for one character.
fn contains_char_in(v: &Vec<char>, c: char) -> (r: bool)
    ensures
        r == contains_char(v@, c),
{
    let mut i: usize = 0;
    while i < v.len()
        invariant
            0 <= i <= v@.len(),
            forall|j: int| 0 <= j < i ==> v@[j] != c,
        decreases v.len() - i,
    {
        if v[i] == c {
            return true;
        }
        i = i + 1;
    }
    proof {
        if contains_char(v@, c) {
            let j = choose|j: int| 0 <= j < v@.len() && v@[j] == c;
        }
    }
    false
}

/// The first index of `c`, or the length.
fn find_char_at(v: &Vec<char>, c: char) -> (a: usize)
    ensures
        a == find_char(v@, 0, c),
        a <= v@.len(),
{
    let mut i: usize = 0;
    while i < v.len()
        invariant
            0 <= i <= v@.len(),
            forall|j: int| 0 <= j < i ==> v@[j] != c,
        decreases v.len() - i,
    {
        if v[i] == c {
            proof {
                lemma_find_char_value(v@, 0, i as int, c);
            }
            return i;
        }
        i = i + 1;
    }
    proof {
        lemma_find_char_value(v@, 0, v@.len() as int, c);
    }
    v.len()
}

proof fn lemma_find_char_value(s: Seq<char>, from: int, a: int, c: char)
    requires
        0 <= from <= a <= s.len(),
        forall|j: int| from <= j < a ==> s[j] != c,
        a < s.len() ==> s[a] == c,
    ensures
        find_char(s, from, c) == a,
    decreases a - from,
{
    if from < a {
        lemma_find_char_value(s, from + 1, a, c);
    }
}

/// Check one whitespace-delimited tool specification; the reason it is
/// rejected, if it is.
pub fn validate_tool_spec(tool: &str) -> (r: Option<String>)
    ensures
        match r {
            Some(reason) => tool_spec_reason(tool@) == Some(reason@),
            None => tool_spec_reason(tool@) is None,
        },
{
    let tc = str_to_chars(tool);
    let opens = count_char_in(&tc, '(');
    let closes = count_char_in(&tc, ')');
    if opens != closes {
        return Some("unbalanced parentheses".to_owned());
    }
    let idx = find_char_at(&tc, '(');
    if idx < tc.len() {
        if !(tc.len() > 0 && tc[tc.len() - 1] == ')') {
            return Some("invalid tool pattern: missing closing ')'".to_owned());
        }
        let head = copy_range(&tc, 0, idx);
        if blank(&head) {
            return Some("tool name cannot be empty".to_owned());
        }
        return None;
    }
    None
}

/// Check a present tools value: a space-delimited string whose tokens are
/// each well-formed, or a sequence of strings.
fn validate_allowed_tools(v: &Val) -> (r: Vec<ValidationError>)
    ensures
        errs_view(r@) == tools_value_violations(v@),
{
    let mut out: Vec<ValidationError> = Vec::new();
    match v {
        Val::Scalar(Scalar::Str(t)) => {
            let tc = str_to_chars(t.as_str());
            let ghost c1: Seq<ValidationErrorV> = if is_blank(t@) {
                seq![ValidationErrorV::EmptyField("allowed-tools"@)]
            } else {
                Seq::empty()
            };
            if blank(&tc) {
                out.push(ValidationError::EmptyField("allowed-tools".to_owned()));
            }
            proof {
                assert(errs_view(out@) =~= c1);
            }
            if contains_char_in(&tc, ',') {
                // one delimiter violation for the whole value; the token
                // checks are skipped
                let err = ValidationError::InvalidToolSpec {
                    spec: t.clone(),
                    reason: "tools must be space-delimited, not comma-delimited".to_owned(),
                };
                let ghost e = err;
                let ghost before = out@;
                out.push(err);
                proof {
                    lemma_views_of_push(before, e);
                    assert(errs_view(out@) =~= tools_value_violations(v@));
                }
            } else {
                let toks = split_tokens(&tc);
                let ghost tv = tokens(t@);
                proof {
                    assert(chunks_view(toks@).len() == toks@.len());
                }
                let mut i: usize = 0;
                proof {
                    assert(tv.subrange(0, 0) =~= Seq::<Seq<char>>::empty());
                    assert(errs_view(out@) =~= c1 + tokens_violations(tv.subrange(0, 0)));
                }
                while i < toks.len()
                    invariant
                        0 <= i <= toks@.len(),
                        chunks_view(toks@) == tv,
                        tv.len() == toks@.len(),
                        errs_view(out@) == c1 + tokens_violations(tv.subrange(0, i as int)),
                    decreases toks.len() - i,
                {
                    proof {
                        assert(chunks_view(toks@)[i as int] == toks@[i as int]@);
                        assert(tv.subrange(0, i + 1).drop_last() =~= tv.subrange(0, i as int));
                        assert(tv.subrange(0, i + 1).last() == tv[i as int]);
                    }
                    let ts = chars_to_string(&toks[i]);
                    let ghost before = out@;
                    match validate_tool_spec(ts.as_str()) {
                        Some(reason) => {
                            let err = ValidationError::InvalidToolSpec {
                                spec: ts.clone(),
                                reason,
                            };
                            let ghost e = err;
                            out.push(err);
                            proof {
                                lemma_views_of_push(before, e);
                                assert(errs_view(out@) =~= c1 + tokens_violations(
                                    tv.subrange(0, i + 1),
                                ));
                            }
                        },
                        None => {
                            proof {
                                assert(errs_view(out@) =~= c1 + tokens_violations(
                                    tv.subrange(0, i + 1),
                                ));
                            }
                        },
                    }
                    i = i + 1;
                }
                proof {
                    assert(tv.subrange(0, tv.len() as int) =~= tv);
                    assert(errs_view(out@) =~= tools_value_violations(v@));
                }
            }
        },
        Val::List(items) => {
            let ghost iv = crate::yaml::nodes_view(items@);
            proof {
                assert(iv.len() == items@.len());
                assert(errs_view(out@) =~= tools_items_violations(iv, 0));
            }
            let mut i: usize = 0;
            while i < items.len()
                invariant
                    0 <= i <= items@.len(),
                    iv == crate::yaml::nodes_view(items@),
                    iv.len() == items@.len(),
                    errs_view(out@) == tools_items_violations(iv, i as int),
                decreases items.len() - i,
            {
                let ghost before = out@;
                proof {
                    assert(iv[i as int] == items@[i as int]@);
                }
                match &items[i] {
                    Node::Scalar(Scalar::Str(_)) => {},
                    _ => {
                        let err = ValidationError::InvalidToolArrayItem { index: i };
                        let ghost e = err;
                        out.push(err);
                        proof {
                            lemma_views_of_push(before, e);
                        }
                    },
                }
                proof {
                    assert(errs_view(out@) =~= tools_items_violations(iv, i + 1));
                }
                i = i + 1;
            }
        },
        _ => {
            out.push(ValidationError::InvalidToolsType);
            proof {
                assert(errs_view(out@) =~= tools_value_violations(v@));
            }
        },
    }
    out
}

/// Validate a metadata mapping against the schema.
///
/// Every applicable rule is checked and every violation reported: unknown
/// fields first, then the fields in schema order. An empty result means
/// the metadata is valid.
#[verifier::rlimit(100)]
pub fn validate_metadata(metadata: &MetaMap, dir_name: Option<&str>) -> (r: Vec<ValidationError>)
    ensures
        errs_view(r@) == validate_spec(metadata@, opt_str_view(dir_name)),
{
    let ghost m = metadata@;
    let mut out: Vec<ValidationError> = Vec::new();

    // unknown fields, joined in mapping order
    let mut joined: Vec<char> = Vec::new();
    let mut count: usize = 0;
    let n = metadata.len();
    let mut i: usize = 0;
    proof {
        assert(m.subrange(0, 0) =~= Seq::<(Seq<char>, ValV)>::empty());
        assert(joined@ =~= join_keys(unknown_keys(m.subrange(0, 0))));
    }
    while i < n
        invariant
            n == m.len(),
            m == metadata@,
            0 <= i <= n,
            count <= i,
            count == unknown_keys(m.subrange(0, i as int)).len(),
            joined@ == join_keys(unknown_keys(m.subrange(0, i as int))),
        decreases n - i,
    {
        let ghost prefix = m.subrange(0, i as int);
        proof {
            assert(m.subrange(0, i + 1).drop_last() =~= prefix);
            assert(m.subrange(0, i + 1).last() == m[i as int]);
        }
        let key = metadata.key_at(i);
        if !is_allowed_field(key.as_str()) {
            if count > 0 {
                joined.push(',');
                joined.push(' ');
            }
            let kc = str_to_chars(key.as_str());
            crate::text::push_all(&mut joined, &kc);
            count = count + 1;
            proof {
                let uk = unknown_keys(prefix);
                let uk2 = unknown_keys(m.subrange(0, i + 1));
                assert(uk2 == uk.push(m[i as int].0));
                assert(uk2.drop_last() =~= uk);
                if uk.len() == 0 {
                    assert(join_keys(uk2) == uk2[0]);
                    assert(joined@ =~= join_keys(uk2));
                } else {
                    assert(join_keys(uk2) == join_keys(uk) + comma_sep() + uk2.last());
                    assert(joined@ =~= join_keys(uk2));
                }
            }
        }
        i = i + 1;
    }
    proof {
        assert(m.subrange(0, n as int) =~= m);
    }
    if count > 0 {
        out.push(ValidationError::UnexpectedFields { fields: chars_to_string(&joined) });
    }
    proof {
        assert(errs_view(out@) =~= unknown_violations(m));
    }
    let ghost g1 = unknown_violations(m);

    // name
    let ghost g2 = g1 + name_violations(m, opt_str_view(dir_name));
    match metadata.get("name") {
        None => {
            let err = ValidationError::MissingField("name".to_owned());
            let ghost e = err;
            let ghost before = out@;
            out.push(err);
            proof {
                lemma_views_of_push(before, e);
                assert(errs_view(out@) =~= g2);
            }
        },
        Some(v) => {
            let handled = match v {
                Val::Scalar(Scalar::Str(s)) => {
                    let sc = str_to_chars(s.as_str());
                    if !blank(&sc) {
                        let mut part = validate_name(s.as_str(), dir_name);
                        let ghost before = out@;
                        let ghost pv = part@;
                        out.append(&mut part);
                        proof {
                            lemma_views_of_concat(before, pv);
                            assert(errs_view(out@) =~= g2);
                        }
                        true
                    } else {
                        false
                    }
                },
                _ => false,
            };
            if !handled {
                let err = ValidationError::EmptyField("name".to_owned());
                let ghost e = err;
                let ghost before = out@;
                out.push(err);
                proof {
                    lemma_views_of_push(before, e);
                    assert(errs_view(out@) =~= g2);
                }
            }
        },
    }
    proof {
        assert(errs_view(out@) == g2);
    }

    // description
    let ghost g3 = g2 + description_violations(m);
    match metadata.get("description") {
        None => {
            let err = ValidationError::MissingField("description".to_owned());
            let ghost e = err;
            let ghost before = out@;
            out.push(err);
            proof {
                lemma_views_of_push(before, e);
                assert(errs_view(out@) =~= g3);
            }
        },
        Some(v) => {
            let handled = match v {
                Val::Scalar(Scalar::Str(s)) => {
                    let sc = str_to_chars(s.as_str());
                    if !blank(&sc) {
                        let mut part = validate_description(s.as_str());
                        let ghost before = out@;
                        let ghost pv = part@;
                        out.append(&mut part);
                        proof {
                            lemma_views_of_concat(before, pv);
                            assert(errs_view(out@) =~= g3);
                        }
                        true
                    } else {
                        false
                    }
                },
                _ => false,
            };
            if !handled {
                let err = ValidationError::EmptyField("description".to_owned());
                let ghost e = err;
                let ghost before = out@;
                out.push(err);
                proof {
                    lemma_views_of_push(before, e);
                    assert(errs_view(out@) =~= g3);
                }
            }
        },
    }
    proof {
        assert(errs_view(out@) == g3);
    }

    // license
    let ghost g4 = g3 + license_violations(m);
    match metadata.get("license") {
        None => {},
        Some(v) => {
            let mut part = validate_license(v);
            let ghost before = out@;
            let ghost pv = part@;
            out.append(&mut part);
            proof {
                lemma_views_of_concat(before, pv);
            }
        },
    }
    proof {
        assert(errs_view(out@) =~= g4);
    }

    // compatibility
    let ghost g5 = g4 + compatibility_violations(m);
    match metadata.get("compatibility") {
        None => {},
        Some(v) => {
            let handled = match v {
                Val::Scalar(Scalar::Str(s)) => {
                    let mut part = validate_compatibility(s.as_str());
                    let ghost before = out@;
                    let ghost pv = part@;
                    out.append(&mut part);
                    proof {
                        lemma_views_of_concat(before, pv);
                    }
                    true
                },
                _ => false,
            };
            if !handled {
                let err = ValidationError::InvalidType("compatibility".to_owned());
                let ghost e = err;
                let ghost before = out@;
                out.push(err);
                proof {
                    lemma_views_of_push(before, e);
                }
            }
        },
    }
    proof {
        assert(errs_view(out@) =~= g5);
    }

    // nested metadata
    let ghost g6 = g5 + metadata_field_violations(m);
    match metadata.get("metadata") {
        None => {},
        Some(v) => {
            let mut part = validate_metadata_field(v);
            let ghost before = out@;
            let ghost pv = part@;
            out.append(&mut part);
            proof {
                lemma_views_of_concat(before, pv);
            }
        },
    }
    proof {
        assert(errs_view(out@) =~= g6);
    }

    // allowed tools
    let ghost g7 = g6 + tools_violations(m);
    match metadata.get("allowed-tools") {
        None => {},
        Some(v) => {
            let mut part = validate_allowed_tools(v);
            let ghost before = out@;
            let ghost pv = part@;
            out.append(&mut part);
            proof {
                lemma_views_of_concat(before, pv);
            }
        },
    }
    proof {
        assert(errs_view(out@) =~= g7);
        assert(g7 == validate_spec(m, opt_str_view(dir_name)));
    }
    out
}

} // verus!
