//! Canonical rendering of the frontmatter block, and description derivation.
//!
//! String field values are always quoted with a JSON-style routine, so a
//! value that merely looks like a boolean, number or null re-parses as the
//! same string. Keys and nested metadata entries follow the same rules the
//! original block format fixes.

use vstd::prelude::*;

use crate::error::{FixError, FixErrorV};
use crate::mapping::{assoc_get, assoc_insert, lemma_assoc_insert_at, sorted_keys, MetaMap};
use crate::parse::delim;
use crate::text::{
    chars_lt, chars_to_string, chunks_view, copy_range, push_all, seq_lt, str_eq, str_to_chars,
    trim_spec, trim_ws,
};
use crate::validation::{allowed_field, is_allowed_field};
use crate::yaml::{node_pairs_view, Node, NodeV, Scalar, ScalarV, Val, ValV};

verus! {

/// A control character: the Unicode `Cc` category.
pub open spec fn is_control_char(c: char) -> bool {
    let u = c as u32;
    u <= 0x1f || (0x7f <= u && u <= 0x9f)
}

/// The lowercase hex digit for a value below sixteen.
pub open spec fn hex_digit(d: int) -> char {
    if d == 0 {
        '0'
    } else if d == 1 {
        '1'
    } else if d == 2 {
        '2'
    } else if d == 3 {
        '3'
    } else if d == 4 {
        '4'
    } else if d == 5 {
        '5'
    } else if d == 6 {
        '6'
    } else if d == 7 {
        '7'
    } else if d == 8 {
        '8'
    } else if d == 9 {
        '9'
    } else if d == 10 {
        'a'
    } else if d == 11 {
        'b'
    } else if d == 12 {
        'c'
    } else if d == 13 {
        'd'
    } else if d == 14 {
        'e'
    } else {
        'f'
    }
}

/// How one character is written inside a quoted scalar.
pub open spec fn quote_char(c: char) -> Seq<char> {
    if c == '"' {
        seq!['\\', '"']
    } else if c == '\\' {
        seq!['\\', '\\']
    } else if c == '\n' {
        seq!['\\', 'n']
    } else if c == '\r' {
        seq!['\\', 'r']
    } else if c == '\t' {
        seq!['\\', 't']
    } else if is_control_char(c) {
        seq!['\\', 'u', '0', '0', hex_digit((c as u32 / 16) as int), hex_digit((c as u32 % 16) as int)]
    } else {
        seq![c]
    }
}

/// The quoted body: each character written in order.
pub open spec fn quote_body(s: Seq<char>) -> Seq<char>
    decreases s.len(),
{
    if s.len() == 0 {
        Seq::empty()
    } else {
        quote_body(s.drop_last()) + quote_char(s.last())
    }
}

/// A JSON-style quoted string: quote, escaped body, quote.
pub open spec fn json_quote_spec(s: Seq<char>) -> Seq<char> {
    seq!['"'] + quote_body(s) + seq!['"']
}

/// Quote a string JSON-style, escaping quote, backslash and controls.
pub fn json_quote(v: &Vec<char>) -> (r: Vec<char>)
    ensures
        r@ == json_quote_spec(v@),
{
    let mut out: Vec<char> = Vec::new();
    out.push('"');
    let mut i: usize = 0;
    proof {
        assert(v@.subrange(0, 0) =~= Seq::<char>::empty());
        assert(out@ =~= seq!['"'] + quote_body(v@.subrange(0, 0)));
    }
    while i < v.len()
        invariant
            0 <= i <= v@.len(),
            out@ == seq!['"'] + quote_body(v@.subrange(0, i as int)),
        decreases v.len() - i,
    {
        proof {
            assert(v@.subrange(0, i + 1).drop_last() =~= v@.subrange(0, i as int));
            assert(v@.subrange(0, i + 1).last() == v@[i as int]);
        }
        let c = v[i];
        let u = c as u32;
        if c == '"' {
            out.push('\\');
            out.push('"');
        } else if c == '\\' {
            out.push('\\');
            out.push('\\');
        } else if c == '\n' {
            out.push('\\');
            out.push('n');
        } else if c == '\r' {
            out.push('\\');
            out.push('r');
        } else if c == '\t' {
            out.push('\\');
            out.push('t');
        } else if u <= 0x1f || (0x7f <= u && u <= 0x9f) {
            out.push('\\');
            out.push('u');
            out.push('0');
            out.push('0');
            out.push(hex_digit_char((u / 16) as u8));
            out.push(hex_digit_char((u % 16) as u8));
        } else {
            out.push(c);
        }
        proof {
            assert(out@ =~= seq!['"'] + quote_body(v@.subrange(0, i + 1)));
        }
        i = i + 1;
    }
    out.push('"');
    proof {
        assert(v@.subrange(0, v@.len() as int) =~= v@);
        assert(out@ =~= json_quote_spec(v@));
    }
    out
}

/// The lowercase hex digit for a value below sixteen.
fn hex_digit_char(d: u8) -> (c: char)
    requires
        d < 16,
    ensures
        c == hex_digit(d as int),
{
    match d {
        0 => '0',
        1 => '1',
        2 => '2',
        3 => '3',
        4 => '4',
        5 => '5',
        6 => '6',
        7 => '7',
        8 => '8',
        9 => '9',
        10 => 'a',
        11 => 'b',
        12 => 'c',
        13 => 'd',
        14 => 'e',
        _ => 'f',
    }
}

/// Whether `c` occurs in `s`.
pub open spec fn has_char(s: Seq<char>, c: char) -> bool {
    exists|i: int| 0 <= i < s.len() && s[i] == c
}

fn scan_char(v: &Vec<char>, c: char) -> (r: bool)
    ensures
        r == has_char(v@, c),
{
    let mut i: usize = 0;
    while i < v.len()
        invariant
            0 <= i <= v@.len(),
            forall|j: int| 0 <= j < i ==> v@[j] != c,
        decreases v.len() - i,
    {
        if v[i] == c {
            return true;
        }
        i = i + 1;
    }
    proof {
        if has_char(v@, c) {
            let j = choose|j: int| 0 <= j < v@.len() && v@[j] == c;
        }
    }
    false
}

/// A first character that would change the line's meaning if left bare.
pub open spec fn special_first(c: char) -> bool {
    c == '-' || c == '?' || c == '!' || c == '@' || c == '&' || c == '*' || c == '>' || c == '|'
        || c == '{' || c == '}' || c == '[' || c == ']' || c == ','
}

/// When a scalar cannot be written bare.
pub open spec fn scalar_needs_quotes(v: Seq<char>) -> bool {
    ||| v.len() == 0
    ||| v[0] == ' '
    ||| v[0] == '\t'
    ||| v.last() == ' '
    ||| v.last() == '\t'
    ||| has_char(v, '\n')
    ||| has_char(v, '\r')
    ||| has_char(v, '\t')
    ||| has_char(v, ':')
    ||| has_char(v, '#')
    ||| special_first(v[0])
}

/// What `format_scalar` writes.
pub open spec fn format_scalar_spec(v: Seq<char>) -> Seq<char> {
    if scalar_needs_quotes(v) {
        json_quote_spec(v)
    } else {
        v
    }
}

/// Write a scalar bare, or quoted when whitespace, separators or a special
/// first character would change its meaning.
pub fn format_scalar(value: &str) -> (r: String)
    ensures
        r@ == format_scalar_spec(value@),
{
    let v = str_to_chars(value);
    let needs = v.len() == 0 || v[0] == ' ' || v[0] == '\t' || v[v.len() - 1] == ' ' || v[v.len()
        - 1] == '\t' || scan_char(&v, '\n') || scan_char(&v, '\r') || scan_char(&v, '\t')
        || scan_char(&v, ':') || scan_char(&v, '#') || is_special_first(v[0]);
    if needs {
        chars_to_string(&json_quote(&v))
    } else {
        chars_to_string(&v)
    }
}

fn is_special_first(c: char) -> (r: bool)
    ensures
        r == special_first(c),
{
    c == '-' || c == '?' || c == '!' || c == '@' || c == '&' || c == '*' || c == '>' || c == '|'
        || c == '{' || c == '}' || c == '[' || c == ']' || c == ','
}

/// An ASCII letter, digit, underscore, hyphen or dot.
pub open spec fn simple_key_char(c: char) -> bool {
    let u = c as u32;
    (0x61 <= u && u <= 0x7a) || (0x41 <= u && u <= 0x5a) || (0x30 <= u && u <= 0x39) || c == '_'
        || c == '-' || c == '.'
}

/// A key that can be written bare.
pub open spec fn is_simple_key_spec(v: Seq<char>) -> bool {
    v.len() > 0 && forall|i: int| 0 <= i < v.len() ==> simple_key_char(#[trigger] v[i])
}

/// Whether a key can be written bare.
pub fn is_simple_key(value: &str) -> (r: bool)
    ensures
        r == is_simple_key_spec(value@),
{
    let v = str_to_chars(value);
    if v.len() == 0 {
        return false;
    }
    let mut i: usize = 0;
    while i < v.len()
        invariant
            v@ == value@,
            v@.len() > 0,
            0 <= i <= v@.len(),
            forall|j: int| 0 <= j < i ==> simple_key_char(#[trigger] v@[j]),
        decreases v.len() - i,
    {
        let c = v[i];
        let u = c as u32;
        if !((0x61 <= u && u <= 0x7a) || (0x41 <= u && u <= 0x5a) || (0x30 <= u && u <= 0x39) || c
            == '_' || c == '-' || c == '.') {
            proof {
                assert(!simple_key_char(value@[i as int]));
                assert(!is_simple_key_spec(value@));
            }
            return false;
        }
        i = i + 1;
    }
    true
}

/// What `format_key` writes.
pub open spec fn format_key_spec(v: Seq<char>) -> Seq<char> {
    if is_simple_key_spec(v) {
        v
    } else {
        json_quote_spec(v)
    }
}

/// Write a key bare when it is simple, quoted otherwise.
pub fn format_key(value: &str) -> (r: String)
    ensures
        r@ == format_key_spec(value@),
{
    if is_simple_key(value) {
        let v = str_to_chars(value);
        chars_to_string(&v)
    } else {
        let v = str_to_chars(value);
        chars_to_string(&json_quote(&v))
    }
}

/// The plain string form of a scalar: the text of a string, the decimal
/// form of a number, `true`/`false`, or `null`.
pub open spec fn scalar_string_spec(v: ScalarV) -> Seq<char> {
    match v {
        ScalarV::Str(s) => s,
        ScalarV::Num(n) => n,
        ScalarV::Bool(b) => if b {
            "true"@
        } else {
            "false"@
        },
        ScalarV::Null => "null"@,
    }
}

/// The plain string form of a top-level value, if it is a scalar.
pub open spec fn value_string_spec(v: ValV) -> Option<Seq<char>> {
    match v {
        ValV::Scalar(s) => Some(scalar_string_spec(s)),
        _ => None,
    }
}

/// The plain string form of a nested node, if it is a scalar.
pub open spec fn node_string_spec(n: NodeV) -> Option<Seq<char>> {
    match n {
        NodeV::Scalar(s) => Some(scalar_string_spec(s)),
        _ => None,
    }
}

/// The string form of a scalar value; sequences, mappings and unsupported
/// shapes cannot be written.
pub fn value_to_string(value: &Val) -> (r: Result<String, FixError>)
    ensures
        match r {
            Ok(s) => value_string_spec(value@) == Some(s@),
            Err(e) => value_string_spec(value@) is None && e@ == FixErrorV::UnsupportedValueType,
        },
{
    match value {
        Val::Scalar(s) => Ok(scalar_to_string(s)),
        _ => Err(FixError::UnsupportedValueType),
    }
}

/// The string form of a nested node.
pub fn node_to_string(n: &Node) -> (r: Result<String, FixError>)
    ensures
        match r {
            Ok(s) => node_string_spec(n@) == Some(s@),
            Err(e) => node_string_spec(n@) is None && e@ == FixErrorV::UnsupportedValueType,
        },
{
    match n {
        Node::Scalar(s) => Ok(scalar_to_string(s)),
        Node::Other => Err(FixError::UnsupportedValueType),
    }
}

/// The string form of a scalar.
pub fn scalar_to_string(s: &Scalar) -> (r: String)
    ensures
        r@ == scalar_string_spec(s@),
{
    match s {
        Scalar::Str(text) => text.clone(),
        Scalar::Num(text) => text.clone(),
        Scalar::Bool(b) => if *b {
            String::from_str("true")
        } else {
            String::from_str("false")
        },
        Scalar::Null => String::from_str("null"),
    }
}

/// What a rendered scalar field value looks like: strings always quoted,
/// other scalars bare.
pub open spec fn yaml_scalar_spec(v: ValV) -> Option<Seq<char>> {
    match v {
        ValV::Scalar(ScalarV::Str(s)) => Some(json_quote_spec(s)),
        ValV::Scalar(s) => Some(scalar_string_spec(s)),
        _ => None,
    }
}

/// Render a scalar field value: a string is always quoted, so that text
/// resembling another scalar type survives a re-parse unchanged.
fn format_yaml_scalar(value: &Val) -> (r: Result<String, FixError>)
    ensures
        match r {
            Ok(s) => yaml_scalar_spec(value@) == Some(s@),
            Err(e) => yaml_scalar_spec(value@) is None && e@ == FixErrorV::UnsupportedValueType,
        },
{
    match value {
        Val::Scalar(Scalar::Str(text)) => {
            let v = str_to_chars(text.as_str());
            Ok(chars_to_string(&json_quote(&v)))
        },
        Val::Scalar(s) => Ok(scalar_to_string(s)),
        _ => Err(FixError::UnsupportedValueType),
    }
}

/// Always quote a string value.
pub fn format_string_value(value: &str) -> (r: String)
    ensures
        r@ == json_quote_spec(value@),
{
    let v = str_to_chars(value);
    chars_to_string(&json_quote(&v))
}

/// The view of a sorted string-to-string entry list.
pub open spec fn str_pairs_view(s: Seq<(String, String)>) -> Seq<(Seq<char>, Seq<char>)> {
    s.map_values(|p: (String, String)| (p.0@, p.1@))
}

/// The nested metadata entries coerced to strings and ordered by key, with
/// later duplicates replacing earlier ones; `None` on an unsupported shape.
pub open spec fn string_map_spec(pairs: Seq<(NodeV, NodeV)>) -> Option<
    Seq<(Seq<char>, Seq<char>)>,
>
    decreases pairs.len(),
{
    if pairs.len() == 0 {
        Some(Seq::empty())
    } else {
        match string_map_spec(pairs.drop_last()) {
            None => None,
            Some(m) => match (node_string_spec(pairs.last().0), node_string_spec(pairs.last().1)) {
                (Some(k), Some(v)) => Some(assoc_insert(m, k, v)),
                _ => None,
            },
        }
    }
}

/// Insert into a sorted string-to-string entry list.
fn str_map_insert(entries: &mut Vec<(String, String)>, key: String, value: String)
    requires
        sorted_keys(str_pairs_view(old(entries)@)),
    ensures
        sorted_keys(str_pairs_view(final(entries)@)),
        str_pairs_view(final(entries)@) == assoc_insert(
            str_pairs_view(old(entries)@),
            key@,
            value@,
        ),
{
    let ghost s = str_pairs_view(entries@);
    let kc = str_to_chars(key.as_str());
    let n = entries.len();
    let mut i: usize = 0;
    proof {
        assert(s.len() == entries@.len());
    }
    loop
        invariant
            n == entries@.len(),
            0 <= i <= n,
            kc@ == key@,
            str_pairs_view(entries@) == s,
            s.len() == n,
            forall|j: int| 0 <= j < i ==> seq_lt(s[j].0, key@),
        ensures
            0 <= i <= n,
            str_pairs_view(entries@) == s,
            forall|j: int| 0 <= j < i ==> seq_lt(s[j].0, key@),
            i < n ==> !seq_lt(s[i as int].0, key@),
        decreases n - i,
    {
        if i >= n {
            break ;
        }
        let ec = str_to_chars(entries[i].0.as_str());
        proof {
            assert(s[i as int] == (entries@[i as int].0@, entries@[i as int].1@));
        }
        if !chars_lt(&ec, &kc) {
            break ;
        }
        i = i + 1;
    }
    proof {
        lemma_assoc_insert_at(s, key@, value@, i as int);
    }
    let replace = if i < n {
        proof {
            assert(s[i as int] == (entries@[i as int].0@, entries@[i as int].1@));
        }
        str_eq(entries[i].0.as_str(), key.as_str())
    } else {
        false
    };
    if replace {
        entries.remove(i);
        entries.insert(i, (key, value));
        proof {
            assert(str_pairs_view(entries@) =~= s.update(i as int, (key@, value@)));
        }
    } else {
        entries.insert(i, (key, value));
        proof {
            assert(str_pairs_view(entries@) =~= s.subrange(0, i as int) + seq![(key@, value@)]
                + s.subrange(i as int, s.len() as int));
        }
    }
}

/// Coerce the nested metadata entries to a sorted string-to-string list.
pub fn mapping_to_string_map(pairs: &Vec<(Node, Node)>) -> (r: Result<
    Vec<(String, String)>,
    FixError,
>)
    ensures
        match r {
            Ok(m) => string_map_spec(node_pairs_view(pairs@)) == Some(str_pairs_view(m@))
                && sorted_keys(str_pairs_view(m@)),
            Err(e) => string_map_spec(node_pairs_view(pairs@)) is None && e@
                == FixErrorV::UnsupportedValueType,
        },
{
    let ghost pv = node_pairs_view(pairs@);
    let mut out: Vec<(String, String)> = Vec::new();
    proof {
        assert(pv.len() == pairs@.len());
        assert(pv.subrange(0, 0) =~= Seq::<(NodeV, NodeV)>::empty());
        assert(str_pairs_view(out@) =~= Seq::<(Seq<char>, Seq<char>)>::empty());
    }
    let mut i: usize = 0;
    while i < pairs.len()
        invariant
            0 <= i <= pairs@.len(),
            pv == node_pairs_view(pairs@),
            pv.len() == pairs@.len(),
            sorted_keys(str_pairs_view(out@)),
            string_map_spec(pv.subrange(0, i as int)) == Some(str_pairs_view(out@)),
        decreases pairs.len() - i,
    {
        proof {
            assert(pv[i as int] == (pairs@[i as int].0@, pairs@[i as int].1@));
            assert(pv.subrange(0, i + 1).drop_last() =~= pv.subrange(0, i as int));
            assert(pv.subrange(0, i + 1).last() == pv[i as int]);
        }
        let k = match node_to_string(&pairs[i].0) {
            Ok(k) => k,
            Err(e) => {
                proof {
                    lemma_string_map_none_extends(pv, i + 1);
                }
                return Err(e);
            },
        };
        let v = match node_to_string(&pairs[i].1) {
            Ok(v) => v,
            Err(e) => {
                proof {
                    lemma_string_map_none_extends(pv, i + 1);
                }
                return Err(e);
            },
        };
        str_map_insert(&mut out, k, v);
        i = i + 1;
    }
    proof {
        assert(pv.subrange(0, pv.len() as int) =~= pv);
    }
    Ok(out)
}

/// Once a prefix fails, the whole coercion fails.
proof fn lemma_string_map_none_extends(s: Seq<(NodeV, NodeV)>, i: int)
    requires
        0 <= i <= s.len(),
        string_map_spec(s.subrange(0, i)) is None,
    ensures
        string_map_spec(s) is None,
    decreases s.len() - i,
{
    if i == s.len() {
        assert(s.subrange(0, i) =~= s);
    } else {
        assert(s.subrange(0, i + 1).drop_last() =~= s.subrange(0, i));
        lemma_string_map_none_extends(s, i + 1);
    }
}


/// The key-value separator in a rendered line.
pub open spec fn colon_sp() -> Seq<char> {
    seq![':', ' ']
}

/// The indent of a nested entry.
pub open spec fn indent2() -> Seq<char> {
    seq![' ', ' ']
}

/// The rendered lines of a coerced, sorted nested mapping.
pub open spec fn sub_lines(sm: Seq<(Seq<char>, Seq<char>)>) -> Seq<Seq<char>>
    decreases sm.len(),
{
    if sm.len() == 0 {
        Seq::empty()
    } else {
        sub_lines(sm.drop_last()).push(
            indent2() + format_key_spec(sm.last().0) + colon_sp() + json_quote_spec(sm.last().1),
        )
    }
}

/// The rendered lines of the metadata field: an indented block for a
/// mapping (nothing for an empty one), a scalar line otherwise.
pub open spec fn metadata_lines(v: ValV) -> Option<Seq<Seq<char>>> {
    match v {
        ValV::Mapping(pairs) => if pairs.len() == 0 {
            Some(Seq::empty())
        } else {
            match string_map_spec(pairs) {
                None => None,
                Some(sm) => Some(seq!["metadata"@ + seq![':']] + sub_lines(sm)),
            }
        },
        _ => match yaml_scalar_spec(v) {
            None => None,
            Some(txt) => Some(seq!["metadata"@ + colon_sp() + txt]),
        },
    }
}

/// The rendered lines of one schema field, absent fields rendering nothing.
pub open spec fn known_field_lines(m: Seq<(Seq<char>, ValV)>, key: Seq<char>) -> Option<
    Seq<Seq<char>>,
> {
    match assoc_get(m, key) {
        None => Some(Seq::empty()),
        Some(v) => if key == "metadata"@ {
            metadata_lines(v)
        } else {
            match yaml_scalar_spec(v) {
                None => None,
                Some(txt) => Some(seq![key + colon_sp() + txt]),
            }
        },
    }
}

/// Concatenation over optional line lists: any failure wins.
pub open spec fn opt_cat(a: Option<Seq<Seq<char>>>, b: Option<Seq<Seq<char>>>) -> Option<
    Seq<Seq<char>>,
> {
    match (a, b) {
        (Some(x), Some(y)) => Some(x + y),
        _ => None,
    }
}

/// The schema fields' lines, in canonical order.
pub open spec fn known_lines(m: Seq<(Seq<char>, ValV)>) -> Option<Seq<Seq<char>>> {
    opt_cat(
        known_field_lines(m, "name"@),
        opt_cat(
            known_field_lines(m, "description"@),
            opt_cat(
                known_field_lines(m, "license"@),
                opt_cat(
                    known_field_lines(m, "compatibility"@),
                    opt_cat(
                        known_field_lines(m, "allowed-tools"@),
                        known_field_lines(m, "metadata"@),
                    ),
                ),
            ),
        ),
    )
}

/// The rendered lines of one unknown field.
pub open spec fn unknown_field_lines(k: Seq<char>, v: ValV) -> Option<Seq<Seq<char>>> {
    match v {
        ValV::Mapping(pairs) => match string_map_spec(pairs) {
            None => None,
            Some(sm) => Some(seq![format_key_spec(k) + seq![':']] + sub_lines(sm)),
        },
        _ => match yaml_scalar_spec(v) {
            None => None,
            Some(txt) => Some(seq![format_key_spec(k) + colon_sp() + txt]),
        },
    }
}

/// The unknown fields' lines, in mapping order.
pub open spec fn unknown_lines(m: Seq<(Seq<char>, ValV)>) -> Option<Seq<Seq<char>>>
    decreases m.len(),
{
    if m.len() == 0 {
        Some(Seq::empty())
    } else {
        match unknown_lines(m.drop_last()) {
            None => None,
            Some(ls) => if allowed_field(m.last().0) {
                Some(ls)
            } else {
                match unknown_field_lines(m.last().0, m.last().1) {
                    None => None,
                    Some(x) => Some(ls + x),
                }
            },
        }
    }
}

/// Lines joined with newlines, no trailing newline.
pub open spec fn join_lines(ls: Seq<Seq<char>>) -> Seq<char>
    decreases ls.len(),
{
    if ls.len() == 0 {
        Seq::empty()
    } else if ls.len() == 1 {
        ls[0]
    } else {
        join_lines(ls.drop_last()) + seq!['\n'] + ls.last()
    }
}

/// What the formatter writes for a mapping: the delimiter line, the schema
/// fields in canonical order, the unknown fields in mapping order, and the
/// closing delimiter line.
pub open spec fn format_spec(m: Seq<(Seq<char>, ValV)>) -> Option<Seq<char>> {
    match opt_cat(known_lines(m), unknown_lines(m)) {
        None => None,
        Some(ls) => Some(join_lines(seq![delim()] + ls + seq![delim()])),
    }
}

/// Append one rendered scalar line `label: value`.
fn push_scalar_line(lines: &mut Vec<Vec<char>>, label: &str, v: &Val) -> (r: Result<(), FixError>)
    ensures
        match r {
            Ok(()) => yaml_scalar_spec(v@) is Some && chunks_view(final(lines)@) == chunks_view(
                old(lines)@,
            ).push(label@ + colon_sp() + yaml_scalar_spec(v@).unwrap()),
            Err(e) => yaml_scalar_spec(v@) is None && e@ == FixErrorV::UnsupportedValueType
                && final(lines)@ == old(lines)@,
        },
{
    let txt = match format_yaml_scalar(v) {
        Ok(t) => t,
        Err(e) => {
            return Err(e);
        },
    };
    let mut line = str_to_chars(label);
    line.push(':');
    line.push(' ');
    let tc = str_to_chars(txt.as_str());
    push_all(&mut line, &tc);
    let ghost lv = line@;
    let ghost before = lines@;
    lines.push(line);
    proof {
        assert(lv =~= label@ + colon_sp() + yaml_scalar_spec(v@).unwrap());
        assert(chunks_view(lines@) =~= chunks_view(before).push(lv)) by {
            assert forall|j: int| 0 <= j < lines@.len() implies chunks_view(lines@)[j]
                == chunks_view(before).push(lv)[j] by {
                if j < before.len() {
                    assert(lines@[j] == before[j]);
                    assert(chunks_view(before)[j] == before[j]@);
                }
            }
        }
    }
    Ok(())
}

/// Render a key for a line: bare when simple, quoted otherwise.
fn key_chars(k: &Vec<char>) -> (r: Vec<char>)
    ensures
        r@ == format_key_spec(k@),
{
    let ks = chars_to_string(k);
    let out = format_key(ks.as_str());
    str_to_chars(out.as_str())
}

/// Append the indented lines of a coerced nested mapping.
fn push_sub_map_lines(lines: &mut Vec<Vec<char>>, sm: &Vec<(String, String)>)
    ensures
        chunks_view(final(lines)@) == chunks_view(old(lines)@) + sub_lines(str_pairs_view(sm@)),
{
    let ghost base = chunks_view(lines@);
    let ghost sv = str_pairs_view(sm@);
    proof {
        assert(sv.len() == sm@.len());
        assert(sv.subrange(0, 0) =~= Seq::<(Seq<char>, Seq<char>)>::empty());
        assert(base + sub_lines(sv.subrange(0, 0)) =~= base);
    }
    let mut i: usize = 0;
    while i < sm.len()
        invariant
            0 <= i <= sm@.len(),
            sv == str_pairs_view(sm@),
            sv.len() == sm@.len(),
            chunks_view(lines@) == base + sub_lines(sv.subrange(0, i as int)),
        decreases sm.len() - i,
    {
        proof {
            assert(sv[i as int] == (sm@[i as int].0@, sm@[i as int].1@));
            assert(sv.subrange(0, i + 1).drop_last() =~= sv.subrange(0, i as int));
            assert(sv.subrange(0, i + 1).last() == sv[i as int]);
        }
        let mut line: Vec<char> = Vec::new();
        line.push(' ');
        line.push(' ');
        let kc = str_to_chars(sm[i].0.as_str());
        let fk = key_chars(&kc);
        push_all(&mut line, &fk);
        line.push(':');
        line.push(' ');
        let vc = str_to_chars(sm[i].1.as_str());
        let qv = json_quote(&vc);
        push_all(&mut line, &qv);
        let ghost lv = line@;
        let ghost before = lines@;
        lines.push(line);
        proof {
            assert(lv =~= indent2() + format_key_spec(sv[i as int].0) + colon_sp()
                + json_quote_spec(sv[i as int].1));
            assert(chunks_view(lines@) =~= chunks_view(before).push(lv)) by {
                assert forall|j: int| 0 <= j < lines@.len() implies chunks_view(lines@)[j]
                    == chunks_view(before).push(lv)[j] by {
                    if j < before.len() {
                        assert(lines@[j] == before[j]);
                        assert(chunks_view(before)[j] == before[j]@);
                    }
                }
            }
            assert(chunks_view(lines@) =~= base + sub_lines(sv.subrange(0, i + 1)));
        }
        i = i + 1;
    }
    proof {
        assert(sv.subrange(0, sv.len() as int) =~= sv);
    }
}

/// Append one schema field's line, other than the metadata field.
fn push_known_field(lines: &mut Vec<Vec<char>>, m: &MetaMap, label: &str) -> (r: Result<
    (),
    FixError,
>)
    requires
        label@ != "metadata"@,
    ensures
        match r {
            Ok(()) => known_field_lines(m@, label@) is Some && chunks_view(final(lines)@)
                == chunks_view(old(lines)@) + known_field_lines(m@, label@).unwrap(),
            Err(e) => known_field_lines(m@, label@) is None && e@
                == FixErrorV::UnsupportedValueType,
        },
{
    match m.get(label) {
        None => {
            proof {
                assert(chunks_view(lines@) + Seq::<Seq<char>>::empty() =~= chunks_view(lines@));
            }
            Ok(())
        },
        Some(v) => match push_scalar_line(lines, label, v) {
            Ok(()) => {
                proof {
                    let txt = yaml_scalar_spec(v@).unwrap();
                    assert(chunks_view(lines@) =~= chunks_view(old(lines)@) + seq![
                        label@ + colon_sp() + txt,
                    ]);
                }
                Ok(())
            },
            Err(e) => Err(e),
        },
    }
}

/// Append the metadata field's lines.
fn push_metadata_field(lines: &mut Vec<Vec<char>>, m: &MetaMap) -> (r: Result<(), FixError>)
    ensures
        match r {
            Ok(()) => known_field_lines(m@, "metadata"@) is Some && chunks_view(final(lines)@)
                == chunks_view(old(lines)@) + known_field_lines(m@, "metadata"@).unwrap(),
            Err(e) => known_field_lines(m@, "metadata"@) is None && e@
                == FixErrorV::UnsupportedValueType,
        },
{
    match m.get("metadata") {
        None => {
            proof {
                assert(chunks_view(lines@) + Seq::<Seq<char>>::empty() =~= chunks_view(lines@));
            }
            Ok(())
        },
        Some(v) => match v {
            Val::Mapping(pairs) => {
                if pairs.len() == 0 {
                    proof {
                        assert(chunks_view(lines@) + Seq::<Seq<char>>::empty() =~= chunks_view(
                            lines@,
                        ));
                    }
                    return Ok(());
                }
                let sm = match mapping_to_string_map(pairs) {
                    Ok(sm) => sm,
                    Err(e) => {
                        return Err(e);
                    },
                };
                let mut head = str_to_chars("metadata");
                head.push(':');
                let ghost hv = head@;
                let ghost before = lines@;
                lines.push(head);
                proof {
                    assert(hv =~= "metadata"@ + seq![':']);
                    assert(chunks_view(lines@) =~= chunks_view(before).push(hv)) by {
                        assert forall|j: int| 0 <= j < lines@.len() implies chunks_view(lines@)[j]
                            == chunks_view(before).push(hv)[j] by {
                            if j < before.len() {
                                assert(lines@[j] == before[j]);
                                assert(chunks_view(before)[j] == before[j]@);
                            }
                        }
                    }
                }
                push_sub_map_lines(lines, &sm);
                proof {
                    assert(chunks_view(lines@) =~= chunks_view(before) + (seq![
                        "metadata"@ + seq![':'],
                    ] + sub_lines(str_pairs_view(sm@))));
                }
                Ok(())
            },
            _ => match push_scalar_line(lines, "metadata", v) {
                Ok(()) => {
                    proof {
                        let txt = yaml_scalar_spec(v@).unwrap();
                        assert(chunks_view(lines@) =~= chunks_view(old(lines)@) + seq![
                            "metadata"@ + colon_sp() + txt,
                        ]);
                    }
                    Ok(())
                },
                Err(e) => Err(e),
            },
        },
    }
}

/// Once a prefix fails, rendering the unknown fields fails.
proof fn lemma_unknown_lines_none_extends(s: Seq<(Seq<char>, ValV)>, i: int)
    requires
        0 <= i <= s.len(),
        unknown_lines(s.subrange(0, i)) is None,
    ensures
        unknown_lines(s) is None,
    decreases s.len() - i,
{
    if i == s.len() {
        assert(s.subrange(0, i) =~= s);
    } else {
        assert(s.subrange(0, i + 1).drop_last() =~= s.subrange(0, i));
        lemma_unknown_lines_none_extends(s, i + 1);
    }
}

/// Join rendered lines with newlines.
fn join_rendered(lines: &Vec<Vec<char>>) -> (r: Vec<char>)
    ensures
        r@ == join_lines(chunks_view(lines@)),
{
    let ghost cv = chunks_view(lines@);
    proof {
        assert(cv.len() == lines@.len());
    }
    let mut out: Vec<char> = Vec::new();
    let mut i: usize = 0;
    proof {
        assert(cv.subrange(0, 0) =~= Seq::<Seq<char>>::empty());
        assert(out@ =~= join_lines(cv.subrange(0, 0)));
    }
    while i < lines.len()
        invariant
            0 <= i <= lines@.len(),
            cv == chunks_view(lines@),
            cv.len() == lines@.len(),
            out@ == join_lines(cv.subrange(0, i as int)),
        decreases lines.len() - i,
    {
        proof {
            assert(cv[i as int] == lines@[i as int]@);
            assert(cv.subrange(0, i + 1).drop_last() =~= cv.subrange(0, i as int));
            assert(cv.subrange(0, i + 1).last() == cv[i as int]);
        }
        if i > 0 {
            out.push('\n');
        }
        push_all(&mut out, &lines[i]);
        proof {
            assert(out@ =~= join_lines(cv.subrange(0, i + 1)));
        }
        i = i + 1;
    }
    proof {
        assert(cv.subrange(0, cv.len() as int) =~= cv);
    }
    out
}

/// Render a mapping as a canonical frontmatter block.
///
/// Fields are written in the fixed schema order, then unknown fields in
/// mapping order; string values are always quoted. Fails only on a value
/// shape the format cannot carry.
#[verifier::rlimit(100)]
pub fn format_frontmatter(metadata: &MetaMap) -> (r: Result<String, FixError>)
    ensures
        match r {
            Ok(s) => format_spec(metadata@) == Some(s@),
            Err(e) => format_spec(metadata@) is None && e@ == FixErrorV::UnsupportedValueType,
        },
{
    let ghost m = metadata@;
    let mut lines: Vec<Vec<char>> = Vec::new();
    let mut head: Vec<char> = Vec::new();
    head.push('-');
    head.push('-');
    head.push('-');
    let ghost hv = head@;
    lines.push(head);
    proof {
        assert(hv =~= delim());
        assert(chunks_view(lines@) =~= seq![delim()]);
    }
    let ghost l0 = chunks_view(lines@);
    proof {
        crate::validation::lemma_field_keys_distinct();
    }

    if let Err(e) = push_known_field(&mut lines, metadata, "name") {
        return Err(e);
    }
    let ghost k1 = known_field_lines(m, "name"@).unwrap();
    if let Err(e) = push_known_field(&mut lines, metadata, "description") {
        return Err(e);
    }
    let ghost k2 = known_field_lines(m, "description"@).unwrap();
    if let Err(e) = push_known_field(&mut lines, metadata, "license") {
        return Err(e);
    }
    let ghost k3 = known_field_lines(m, "license"@).unwrap();
    if let Err(e) = push_known_field(&mut lines, metadata, "compatibility") {
        return Err(e);
    }
    let ghost k4 = known_field_lines(m, "compatibility"@).unwrap();
    if let Err(e) = push_known_field(&mut lines, metadata, "allowed-tools") {
        return Err(e);
    }
    let ghost k5 = known_field_lines(m, "allowed-tools"@).unwrap();
    if let Err(e) = push_metadata_field(&mut lines, metadata) {
        return Err(e);
    }
    let ghost k6 = known_field_lines(m, "metadata"@).unwrap();
    proof {
        assert(chunks_view(lines@) =~= l0 + (k1 + (k2 + (k3 + (k4 + (k5 + k6))))));
        assert(known_lines(m) == Some(k1 + (k2 + (k3 + (k4 + (k5 + k6))))));
    }
    let ghost kl = k1 + (k2 + (k3 + (k4 + (k5 + k6))));

    // unknown fields, in mapping order
    let n = metadata.len();
    let mut i: usize = 0;
    proof {
        assert(m.subrange(0, 0) =~= Seq::<(Seq<char>, ValV)>::empty());
        assert(unknown_lines(m.subrange(0, 0)) == Some(Seq::<Seq<char>>::empty()));
        assert(chunks_view(lines@) =~= l0 + kl + Seq::<Seq<char>>::empty());
    }
    while i < n
        invariant
            n == m.len(),
            m == metadata@,
            0 <= i <= n,
            unknown_lines(m.subrange(0, i as int)) is Some,
            chunks_view(lines@) == l0 + kl + unknown_lines(m.subrange(0, i as int)).unwrap(),
        decreases n - i,
    {
        let ghost prefix = m.subrange(0, i as int);
        proof {
            assert(m.subrange(0, i + 1).drop_last() =~= prefix);
            assert(m.subrange(0, i + 1).last() == m[i as int]);
        }
        let key = metadata.key_at(i);
        if !is_allowed_field(key.as_str()) {
            let v = metadata.val_at(i);
            let handled_map = match v {
                Val::Mapping(pairs) => {
                    let sm = match mapping_to_string_map(pairs) {
                        Ok(sm) => sm,
                        Err(e) => {
                            proof {
                                assert(unknown_lines(m.subrange(0, i + 1)) is None);
                                lemma_unknown_lines_none_extends(m, i + 1);
                            }
                            return Err(e);
                        },
                    };
                    let kc = str_to_chars(key.as_str());
                    let mut hl = key_chars(&kc);
                    hl.push(':');
                    let ghost hlv = hl@;
                    let ghost before = lines@;
                    lines.push(hl);
                    proof {
                        assert(hlv =~= format_key_spec(m[i as int].0) + seq![':']);
                        assert(chunks_view(lines@) =~= chunks_view(before).push(hlv)) by {
                            assert forall|j: int|
                                0 <= j < lines@.len() implies chunks_view(lines@)[j] == chunks_view(
                                before,
                            ).push(hlv)[j] by {
                                if j < before.len() {
                                    assert(lines@[j] == before[j]);
                                    assert(chunks_view(before)[j] == before[j]@);
                                }
                            }
                        }
                    }
                    push_sub_map_lines(&mut lines, &sm);
                    proof {
                        assert(unknown_field_lines(m[i as int].0, m[i as int].1) == Some(
                            seq![format_key_spec(m[i as int].0) + seq![':']] + sub_lines(
                                str_pairs_view(sm@),
                            ),
                        ));
                        assert(chunks_view(lines@) =~= l0 + kl + unknown_lines(
                            m.subrange(0, i + 1),
                        ).unwrap());
                    }
                    true
                },
                _ => false,
            };
            if !handled_map {
                let txt = match format_yaml_scalar(v) {
                    Ok(t) => t,
                    Err(e) => {
                        proof {
                            assert(unknown_lines(m.subrange(0, i + 1)) is None);
                            lemma_unknown_lines_none_extends(m, i + 1);
                        }
                        return Err(e);
                    },
                };
                let kc = str_to_chars(key.as_str());
                let mut line = key_chars(&kc);
                line.push(':');
                line.push(' ');
                let tc = str_to_chars(txt.as_str());
                push_all(&mut line, &tc);
                let ghost lv = line@;
                let ghost before = lines@;
                lines.push(line);
                proof {
                    assert(lv =~= format_key_spec(m[i as int].0) + colon_sp() + yaml_scalar_spec(
                        m[i as int].1,
                    ).unwrap());
                    assert(chunks_view(lines@) =~= chunks_view(before).push(lv)) by {
                        assert forall|j: int|
                            0 <= j < lines@.len() implies chunks_view(lines@)[j] == chunks_view(
                            before,
                        ).push(lv)[j] by {
                            if j < before.len() {
                                assert(lines@[j] == before[j]);
                                assert(chunks_view(before)[j] == before[j]@);
                            }
                        }
                    }
                    assert(chunks_view(lines@) =~= l0 + kl + unknown_lines(
                        m.subrange(0, i + 1),
                    ).unwrap());
                }
            }
        } else {
            proof {
                assert(unknown_lines(m.subrange(0, i + 1)) == unknown_lines(prefix));
            }
        }
        i = i + 1;
    }
    proof {
        assert(m.subrange(0, n as int) =~= m);
    }
    let ghost ul = unknown_lines(m).unwrap();

    let mut foot: Vec<char> = Vec::new();
    foot.push('-');
    foot.push('-');
    foot.push('-');
    let ghost fv = foot@;
    let ghost before = lines@;
    lines.push(foot);
    proof {
        assert(fv =~= delim());
        assert(chunks_view(lines@) =~= chunks_view(before).push(fv)) by {
            assert forall|j: int| 0 <= j < lines@.len() implies chunks_view(lines@)[j]
                == chunks_view(before).push(fv)[j] by {
                if j < before.len() {
                    assert(lines@[j] == before[j]);
                    assert(chunks_view(before)[j] == before[j]@);
                }
            }
        }
        assert(chunks_view(lines@) =~= seq![delim()] + (kl + ul) + seq![delim()]);
    }
    let joined = join_rendered(&lines);
    proof {
        assert(format_spec(m) == Some(join_lines(seq![delim()] + (kl + ul) + seq![delim()])));
    }
    Ok(chars_to_string(&joined))
}


/// The length of the leading run of `c` in `l`, starting at `from`.
pub open spec fn run_end(l: Seq<char>, from: int, c: char) -> int
    decreases l.len() - from,
        when 0 <= from <= l.len()
{
    if from < 0 || from >= l.len() {
        l.len() as int
    } else if l[from] != c {
        from
    } else {
        run_end(l, from + 1, c)
    }
}

proof fn lemma_run_end_value(s: Seq<char>, from: int, e: int, c: char)
    requires
        0 <= from <= e <= s.len(),
        forall|j: int| from <= j < e ==> s[j] == c,
        e < s.len() ==> s[e] != c,
    ensures
        run_end(s, from, c) == e,
    decreases e - from,
{
    if from < e {
        lemma_run_end_value(s, from + 1, e, c);
    }
}

/// A fence line: three or more backticks or tildes at the start; the fence
/// character and the run length.
pub open spec fn fence_of(l: Seq<char>) -> Option<(char, int)> {
    if l.len() > 0 && (l[0] == '`' || l[0] == '~') {
        let n = run_end(l, 0, l[0]);
        if n >= 3 {
            Some((l[0], n))
        } else {
            None
        }
    } else {
        None
    }
}

/// The ghost image of an executable fence description.
pub open spec fn fence_view(f: Option<(char, usize)>) -> Option<(char, int)> {
    match f {
        Some(p) => Some((p.0, p.1 as int)),
        None => None,
    }
}

/// Read a fence line: its fence character and run length, if it is one.
pub fn parse_code_fence(line: &str) -> (r: Option<(char, usize)>)
    ensures
        fence_view(r) == fence_of(line@),
{
    let v = str_to_chars(line);
    if v.len() == 0 {
        return None;
    }
    let c0 = v[0];
    if c0 != '`' && c0 != '~' {
        return None;
    }
    let mut i: usize = 0;
    loop
        invariant
            0 <= i <= v@.len(),
            forall|j: int| 0 <= j < i ==> v@[j] == c0,
        ensures
            0 <= i <= v@.len(),
            forall|j: int| 0 <= j < i ==> v@[j] == c0,
            i == v@.len() || v@[i as int] != c0,
        decreases v@.len() - i,
    {
        if i >= v.len() {
            break ;
        }
        if v[i] != c0 {
            break ;
        }
        i = i + 1;
    }
    proof {
        lemma_run_end_value(v@, 0, i as int, c0);
    }
    if i >= 3 {
        Some((c0, i))
    } else {
        None
    }
}

/// Leading heading markers stripped from a line.
pub open spec fn strip_hashes(l: Seq<char>) -> Seq<char> {
    crate::text::trim_start_p(l, |c: char| c == '#')
}

/// The first body line that is not blank, not a heading, not a fence line
/// and not inside a fenced block, trimmed.
pub open spec fn derive_scan(s: Seq<char>, i: int, fence: Option<(char, int)>) -> Option<Seq<char>>
    decreases s.len() + 1 - i,
        when 0 <= i
        via derive_scan_decreases
{
    if i >= s.len() {
        None
    } else {
        let e = crate::parse::line_end(s, i);
        let line = trim_spec(s.subrange(i, e));
        match fence_of(line) {
            Some(f) => match fence {
                Some(open) => if f.0 == open.0 && f.1 >= open.1 {
                    derive_scan(s, e + 1, None)
                } else {
                    derive_scan(s, e + 1, fence)
                },
                None => derive_scan(s, e + 1, Some(f)),
            },
            None => {
                if fence is Some || line.len() == 0 || line[0] == '#' {
                    derive_scan(s, e + 1, fence)
                } else {
                    Some(line)
                }
            },
        }
    }
}

#[via_fn]
proof fn derive_scan_decreases(s: Seq<char>, i: int, fence: Option<(char, int)>) {
    if 0 <= i && i < s.len() {
        crate::parse::lemma_line_end(s, i);
    }
}

/// Where the leading run of heading markers ends, the rest begins.
proof fn lemma_strip_hashes_at(l: Seq<char>, a: int)
    requires
        0 <= a <= l.len(),
        forall|j: int| 0 <= j < a ==> l[j] == '#',
        a == l.len() || l[a] != '#',
    ensures
        strip_hashes(l) == l.subrange(a, l.len() as int),
    decreases a,
{
    if a == 0 {
        assert(l.subrange(0, l.len() as int) =~= l);
    } else {
        lemma_strip_hashes_at(l.drop_first(), a - 1);
        assert(l.drop_first().subrange(a - 1, l.drop_first().len() as int) =~= l.subrange(
            a,
            l.len() as int,
        ));
    }
}

/// The first heading line's text: markers stripped, trimmed.
pub open spec fn heading_scan(s: Seq<char>, i: int) -> Option<Seq<char>>
    decreases s.len() + 1 - i,
        when 0 <= i
        via heading_scan_decreases
{
    if i >= s.len() {
        None
    } else {
        let e = crate::parse::line_end(s, i);
        let line = trim_spec(s.subrange(i, e));
        if line.len() > 0 && line[0] == '#' {
            Some(trim_spec(strip_hashes(line)))
        } else {
            heading_scan(s, e + 1)
        }
    }
}

#[via_fn]
proof fn heading_scan_decreases(s: Seq<char>, i: int) {
    if 0 <= i && i < s.len() {
        crate::parse::lemma_line_end(s, i);
    }
}

/// The fallback description.
pub open spec fn placeholder_description() -> Seq<char> {
    "Describe what this skill does and when to use it"@
}

/// What description derivation yields: the first qualifying body line, else
/// the first heading's text, else a fixed placeholder.
pub open spec fn derive_spec(body: Seq<char>) -> Seq<char> {
    match derive_scan(body, 0, None) {
        Some(l) => l,
        None => match heading_scan(body, 0) {
            Some(h) => h,
            None => placeholder_description(),
        },
    }
}

/// The first newline at or after `from`, or the text's length.
fn body_line_end(v: &Vec<char>, from: usize) -> (e: usize)
    requires
        from <= v@.len(),
    ensures
        e == crate::parse::line_end(v@, from as int),
        from <= e <= v@.len(),
{
    let mut i: usize = from;
    while i < v.len()
        invariant
            from <= i <= v@.len(),
            forall|j: int| from <= j < i ==> v@[j] != '\n',
        decreases v.len() - i,
    {
        if v[i] == '\n' {
            proof {
                lemma_body_line_end(v@, from as int, i as int);
            }
            return i;
        }
        i = i + 1;
    }
    proof {
        lemma_body_line_end(v@, from as int, v@.len() as int);
    }
    v.len()
}

proof fn lemma_body_line_end(s: Seq<char>, from: int, e: int)
    requires
        0 <= from <= e <= s.len(),
        forall|j: int| from <= j < e ==> s[j] != '\n',
        e < s.len() ==> s[e] == '\n',
    ensures
        crate::parse::line_end(s, from) == e,
    decreases e - from,
{
    if from < e {
        lemma_body_line_end(s, from + 1, e);
    }
}

/// Derive a one-line description from body text: the first line that is
/// not blank, not a heading, not a fence line and not inside a fenced code
/// block; else the first heading's text; else a fixed placeholder.
pub fn derive_description(body: &str) -> (r: String)
    ensures
        r@ == derive_spec(body@),
{
    let v = str_to_chars(body);
    let mut i: usize = 0;
    let mut fence: Option<(char, usize)> = None;
    loop
        invariant
            0 <= i <= v@.len(),
            v@ == body@,
            derive_scan(body@, 0, None) == derive_scan(v@, i as int, fence_view(fence)),
        ensures
            derive_scan(body@, 0, None) is None,
        decreases v@.len() - i,
    {
        if i >= v.len() {
            break ;
        }
        let e = body_line_end(&v, i);
        let raw = copy_range(&v, i, e);
        let line = trim_ws(&raw);
        let lf = {
            let ls = chars_to_string(&line);
            parse_code_fence(ls.as_str())
        };
        match lf {
            Some(f) => {
                match fence {
                    Some(open) => {
                        if f.0 == open.0 && f.1 >= open.1 {
                            fence = None;
                        }
                    },
                    None => {
                        fence = Some(f);
                    },
                }
            },
            None => {
                let in_fence = match fence {
                    Some(_) => true,
                    None => false,
                };
                if !in_fence && line.len() > 0 && line[0] != '#' {
                    return chars_to_string(&line);
                }
            },
        }
        if e >= v.len() {
            proof {
                assert(derive_scan(v@, e + 1, fence_view(fence)) is None);
            }
            return derive_heading_fallback(&v);
        }
        i = e + 1;
    }
    derive_heading_fallback(&v)
}

/// The heading fallback of description derivation.
fn derive_heading_fallback(v: &Vec<char>) -> (r: String)
    requires
        derive_scan(v@, 0, None) is None,
    ensures
        r@ == derive_spec(v@),
{
    let mut i: usize = 0;
    loop
        invariant
            0 <= i <= v@.len(),
            derive_scan(v@, 0, None) is None,
            heading_scan(v@, 0) == heading_scan(v@, i as int),
        ensures
            heading_scan(v@, 0) is None,
        decreases v@.len() - i,
    {
        if i >= v.len() {
            break ;
        }
        let e = body_line_end(&v, i);
        let raw = copy_range(&v, i, e);
        let line = trim_ws(&raw);
        if line.len() > 0 && line[0] == '#' {
            let mut a: usize = 0;
            loop
                invariant
                    0 <= a <= line@.len(),
                    forall|j: int| 0 <= j < a ==> line@[j] == '#',
                ensures
                    0 <= a <= line@.len(),
                    forall|j: int| 0 <= j < a ==> line@[j] == '#',
                    a == line@.len() || line@[a as int] != '#',
                decreases line@.len() - a,
            {
                if a >= line.len() {
                    break ;
                }
                if line[a] != '#' {
                    break ;
                }
                a = a + 1;
            }
            proof {
                lemma_strip_hashes_at(line@, a as int);
            }
            let rest = copy_range(&line, a, line.len());
            let out = trim_ws(&rest);
            proof {
                assert(strip_hashes(line@) == line@.subrange(a as int, line@.len() as int));
                assert(heading_scan(v@, i as int) == Some(trim_spec(strip_hashes(line@))));
            }
            return chars_to_string(&out);
        }
        if e >= v.len() {
            proof {
                assert(heading_scan(v@, e + 1) is None);
            }
            break ;
        }
        i = e + 1;
    }
    String::from_str("Describe what this skill does and when to use it")
}

} // verus!
