//! Checking and repairing one skill document.
//!
//! The fixer re-parses or synthesizes a mapping, reconciles the name with
//! the directory, backfills the description, normalizes the nested metadata
//! mapping, prunes null fields, and re-renders the block canonically. It
//! reports whether anything changed against the original text.

use vstd::prelude::*;

use crate::error::{errs_view, FixError, FixErrorV, ValidationError, ValidationErrorV};
use crate::formatting::{
    derive_description, derive_spec, format_frontmatter, format_spec, node_string_spec,
    node_to_string,
};
use crate::mapping::{assoc_get, assoc_insert, drop_null_entries, MetaMap};
use crate::parse::{delim, parse_frontmatter, parse_spec};
use crate::paths::{dir_name_spec, get_dir_name, name_suffix};
use crate::skill::SkillFile;
use crate::text::{
    chars_eq, chars_to_string, copy_range, is_blank, lemma_views_of_concat, lemma_views_of_push,
    push_all, str_eq, str_to_chars, trim_end_spec, trim_nl_spec, trim_spec, trim_newlines,
    trim_ws, trim_ws_end, blank,
};
use crate::unicode::{nfkc, nfkc_str};
use crate::validation::{validate_metadata, validate_spec};
use crate::yaml::{node_pairs_view, Node, NodeV, Scalar, ScalarV, Val, ValV};

verus! {

/// The outcome of one fix.
#[derive(Debug)]
pub struct FixResult {
    /// Whether anything changed against the original text.
    pub changed: bool,
    /// Errors met while fixing; empty on success.
    pub errors: Vec<FixError>,
    /// The canonical text, when it could be computed.
    pub new_content: Option<String>,
    /// The path the fixed file should live at, once a caller resolves it.
    pub target_path: Option<String>,
}

/// What validating one loaded document yields: the canonical-name check,
/// then the parse, then the schema rules with the directory name.
pub open spec fn check_spec(file_path: Seq<char>, content: Seq<char>, dir_path: Seq<char>) -> Seq<
    ValidationErrorV,
> {
    (if name_suffix(file_path) != "SKILL.md"@ {
        seq![ValidationErrorV::NotUppercase]
    } else {
        Seq::empty()
    }) + (match parse_spec(content) {
        Err(e) => seq![ValidationErrorV::Parse(e)],
        Ok(p) => validate_spec(p.0, Some(dir_name_spec(dir_path))),
    })
}

/// Check a loaded skill document.
///
/// Reports a non-canonical file name, a parse failure, or every schema
/// violation of the parsed metadata against the containing directory name.
pub fn check_skill(skill: &SkillFile) -> (r: Vec<ValidationError>)
    ensures
        errs_view(r@) == check_spec(skill.file_path@, skill.content@, skill.dir_path@),
{
    let mut out: Vec<ValidationError> = Vec::new();
    let fname = file_name_of(skill.file_path.as_str());
    if !str_eq(fname.as_str(), "SKILL.md") {
        out.push(ValidationError::NotUppercase);
    }
    let ghost g1: Seq<ValidationErrorV> = if name_suffix(skill.file_path@) != "SKILL.md"@ {
        seq![ValidationErrorV::NotUppercase]
    } else {
        Seq::empty()
    };
    proof {
        assert(errs_view(out@) =~= g1);
    }
    match parse_frontmatter(skill.content.as_str()) {
        Err(e) => {
            let err = ValidationError::Parse(e);
            let ghost ee = err;
            let ghost before = out@;
            out.push(err);
            proof {
                lemma_views_of_push(before, ee);
                assert(errs_view(out@) =~= check_spec(
                    skill.file_path@,
                    skill.content@,
                    skill.dir_path@,
                ));
            }
        },
        Ok((m, _body)) => {
            let dn = get_dir_name(skill.dir_path.as_str());
            let mut part = validate_metadata(&m, Some(dn.as_str()));
            let ghost before = out@;
            let ghost pv = part@;
            out.append(&mut part);
            proof {
                lemma_views_of_concat(before, pv);
                assert(errs_view(out@) =~= check_spec(
                    skill.file_path@,
                    skill.content@,
                    skill.dir_path@,
                ));
            }
        },
    }
    out
}

/// The final component of a file path.
fn file_name_of(path: &str) -> (r: String)
    ensures
        r@ == name_suffix(path@),
{
    let v = str_to_chars(path);
    let mut a: usize = 0;
    let mut i: usize = 0;
    while i < v.len()
        invariant
            0 <= a <= i <= v@.len(),
            forall|j: int| a <= j < i ==> v@[j] != '/',
            a == 0 || v@[a - 1] == '/',
        decreases v.len() - i,
    {
        if v[i] == '/' {
            a = i + 1;
        }
        i = i + 1;
    }
    proof {
        crate::paths::lemma_name_suffix_at(v@, a as int);
    }
    let out = copy_range(&v, a, v.len());
    chars_to_string(&out)
}

/// Every leading byte-order mark stripped.
pub open spec fn strip_boms(s: Seq<char>) -> Seq<char>
    decreases s.len(),
{
    if s.len() > 0 && s[0] == '\u{feff}' {
        strip_boms(s.drop_first())
    } else {
        s
    }
}

proof fn lemma_strip_boms_at(s: Seq<char>, a: int)
    requires
        0 <= a <= s.len(),
        forall|j: int| 0 <= j < a ==> s[j] == '\u{feff}',
        a == s.len() || s[a] != '\u{feff}',
    ensures
        strip_boms(s) == s.subrange(a, s.len() as int),
    decreases a,
{
    if a == 0 {
        assert(s.subrange(0, s.len() as int) =~= s);
    } else {
        lemma_strip_boms_at(s.drop_first(), a - 1);
        assert(s.drop_first().subrange(a - 1, s.drop_first().len() as int) =~= s.subrange(
            a,
            s.len() as int,
        ));
    }
}

/// Whether `s` begins with the delimiter characters.
pub open spec fn starts_with_delim(s: Seq<char>) -> bool {
    s.len() >= 3 && s.subrange(0, 3) == delim()
}

/// Replace the value under the first occurrence of `k`, in place, or append
/// the entry, as an insertion-ordered mapping does.
pub open spec fn index_insert(m: Seq<(NodeV, NodeV)>, k: NodeV, v: NodeV) -> Seq<(NodeV, NodeV)>
    decreases m.len(),
{
    if m.len() == 0 {
        seq![(k, v)]
    } else if m[0].0 == k {
        seq![(k, v)] + m.drop_first()
    } else {
        seq![m[0]] + index_insert(m.drop_first(), k, v)
    }
}

/// The nested metadata entries with every key and value coerced to its
/// string form, keeping first-occurrence order, later duplicates replacing
/// earlier values; `None` on an unsupported shape.
pub open spec fn norm_pairs(pairs: Seq<(NodeV, NodeV)>) -> Option<Seq<(NodeV, NodeV)>>
    decreases pairs.len(),
{
    if pairs.len() == 0 {
        Some(Seq::empty())
    } else {
        match norm_pairs(pairs.drop_last()) {
            None => None,
            Some(m) => match (node_string_spec(pairs.last().0), node_string_spec(pairs.last().1)) {
                (Some(k), Some(v)) => Some(
                    index_insert(m, NodeV::Scalar(ScalarV::Str(k)), NodeV::Scalar(ScalarV::Str(v))),
                ),
                _ => None,
            },
        }
    }
}

/// Where an insertion-ordered update lands, given the first matching index.
proof fn lemma_index_insert_at(m: Seq<(NodeV, NodeV)>, k: NodeV, v: NodeV, idx: int)
    requires
        0 <= idx <= m.len(),
        forall|j: int| 0 <= j < idx ==> m[j].0 != k,
        idx < m.len() ==> m[idx].0 == k,
    ensures
        idx < m.len() ==> index_insert(m, k, v) == m.update(idx, (k, v)),
        idx == m.len() ==> index_insert(m, k, v) == m.push((k, v)),
    decreases idx,
{
    if idx == 0 {
        if m.len() == 0 {
            assert(index_insert(m, k, v) =~= m.push((k, v)));
        } else if m[0].0 == k {
            assert(seq![(k, v)] + m.drop_first() =~= m.update(0, (k, v)));
        }
    } else {
        assert(m[0].0 != k);
        let t = m.drop_first();
        assert(forall|j: int| 0 <= j < idx - 1 ==> t[j] == m[j + 1] && t[j].0 != k);
        if idx - 1 < t.len() {
            assert(t[idx - 1] == m[idx]);
        }
        lemma_index_insert_at(t, k, v, idx - 1);
        if idx < m.len() {
            assert(seq![m[0]] + t.update(idx - 1, (k, v)) =~= m.update(idx, (k, v)));
        } else {
            assert(seq![m[0]] + t.push((k, v)) =~= m.push((k, v)));
        }
    }
}

/// With no matching key present, an insertion-ordered update appends.
pub proof fn lemma_index_insert_append(m: Seq<(NodeV, NodeV)>, k: NodeV, v: NodeV)
    requires
        forall|j: int| 0 <= j < m.len() ==> m[j].0 != k,
    ensures
        index_insert(m, k, v) == m.push((k, v)),
{
    lemma_index_insert_at(m, k, v, m.len() as int);
}

/// Coerce every key and value of a nested metadata mapping to its string
/// form; an unsupported shape is a hard error.
pub fn normalize_metadata_mapping(pairs: &Vec<(Node, Node)>) -> (r: Result<
    Vec<(Node, Node)>,
    FixError,
>)
    ensures
        match r {
            Ok(np) => norm_pairs(node_pairs_view(pairs@)) == Some(node_pairs_view(np@)),
            Err(e) => norm_pairs(node_pairs_view(pairs@)) is None && e@
                == FixErrorV::UnsupportedValueType,
        },
{
    let ghost pv = node_pairs_view(pairs@);
    let mut out: Vec<(Node, Node)> = Vec::new();
    proof {
        assert(pv.len() == pairs@.len());
        assert(pv.subrange(0, 0) =~= Seq::<(NodeV, NodeV)>::empty());
        assert(node_pairs_view(out@) =~= Seq::<(NodeV, NodeV)>::empty());
    }
    let mut i: usize = 0;
    while i < pairs.len()
        invariant
            0 <= i <= pairs@.len(),
            pv == node_pairs_view(pairs@),
            pv.len() == pairs@.len(),
            norm_pairs(pv.subrange(0, i as int)) == Some(node_pairs_view(out@)),
        decreases pairs.len() - i,
    {
        proof {
            assert(pv[i as int] == (pairs@[i as int].0@, pairs@[i as int].1@));
            assert(pv.subrange(0, i + 1).drop_last() =~= pv.subrange(0, i as int));
            assert(pv.subrange(0, i + 1).last() == pv[i as int]);
        }
        let k = match node_to_string(&pairs[i].0) {
            Ok(k) => k,
            Err(e) => {
                proof {
                    lemma_norm_pairs_none_extends(pv, i + 1);
                }
                return Err(e);
            },
        };
        let v = match node_to_string(&pairs[i].1) {
            Ok(v) => v,
            Err(e) => {
                proof {
                    lemma_norm_pairs_none_extends(pv, i + 1);
                }
                return Err(e);
            },
        };
        let kn = Node::Scalar(Scalar::Str(k));
        let vn = Node::Scalar(Scalar::Str(v));
        let ghost knv = kn@;
        let ghost vnv = vn@;
        let ghost before = node_pairs_view(out@);
        // first-match scan for an existing key
        let n0 = out.len();
        let mut p: usize = 0;
        loop
            invariant
                n0 == out@.len(),
                0 <= p <= n0,
                node_pairs_view(out@) == before,
                knv == kn@,
                forall|j: int| 0 <= j < p ==> before[j].0 != knv,
            ensures
                0 <= p <= n0,
                node_pairs_view(out@) == before,
                n0 == out@.len(),
                forall|j: int| 0 <= j < p ==> before[j].0 != knv,
                p < n0 ==> before[p as int].0 == knv,
            decreases n0 - p,
        {
            if p >= n0 {
                break ;
            }
            proof {
                assert(before[p as int] == (out@[p as int].0@, out@[p as int].1@));
            }
            if crate::yaml::node_eq(&out[p].0, &kn) {
                break ;
            }
            p = p + 1;
        }
        proof {
            assert(before.len() == n0);
            lemma_index_insert_at(before, knv, vnv, p as int);
        }
        if p < n0 {
            out.remove(p);
            out.insert(p, (kn, vn));
            proof {
                assert(node_pairs_view(out@) =~= before.update(p as int, (knv, vnv)));
            }
        } else {
            out.push((kn, vn));
            proof {
                assert(node_pairs_view(out@) =~= before.push((knv, vnv)));
            }
        }
        proof {
            assert(norm_pairs(pv.subrange(0, i + 1)) == Some(node_pairs_view(out@)));
        }
        i = i + 1;
    }
    proof {
        assert(pv.subrange(0, pv.len() as int) =~= pv);
    }
    Ok(out)
}

/// Once a prefix fails, the whole coercion fails.
proof fn lemma_norm_pairs_none_extends(s: Seq<(NodeV, NodeV)>, i: int)
    requires
        0 <= i <= s.len(),
        norm_pairs(s.subrange(0, i)) is None,
    ensures
        norm_pairs(s) is None,
    decreases s.len() - i,
{
    if i == s.len() {
        assert(s.subrange(0, i) =~= s);
    } else {
        assert(s.subrange(0, i + 1).drop_last() =~= s.subrange(0, i));
        lemma_norm_pairs_none_extends(s, i + 1);
    }
}

/// The outcome the pure fixer computes.
pub struct FixOutV {
    /// Whether anything changed against the (BOM-stripped) input.
    pub changed: bool,
    /// The canonical text, or why it could not be computed.
    pub out: Result<Seq<char>, FixErrorV>,
}

/// The serialization tail every branch shares: null fields pruned, the
/// block rendered, the body appended after one blank line, trailing
/// whitespace trimmed, exactly one trailing newline.
pub open spec fn finish_spec(c: Seq<char>, m: Seq<(Seq<char>, ValV)>, body: Seq<char>, changed0: bool) -> FixOutV {
    let pruned = drop_null_entries(m);
    match format_spec(pruned) {
        None => FixOutV { changed: changed0, out: Err(FixErrorV::UnsupportedValueType) },
        Some(f) => {
            let text = trim_end_spec(f + seq!['\n', '\n'] + body) + seq!['\n'];
            FixOutV { changed: changed0 || text != c, out: Ok(text) }
        },
    }
}

/// What fixing a document's text yields, given its directory name.
pub open spec fn fix_spec(content: Seq<char>, dir: Seq<char>) -> FixOutV {
    let c = strip_boms(content);
    let bom = c != content;
    if !starts_with_delim(c) {
        let body = trim_nl_spec(c);
        let m0 = assoc_insert(
            assoc_insert(
                Seq::<(Seq<char>, ValV)>::empty(),
                "name"@,
                ValV::Scalar(ScalarV::Str(dir)),
            ),
            "description"@,
            ValV::Scalar(ScalarV::Str(derive_spec(c))),
        );
        finish_spec(c, m0, body, true)
    } else {
        match parse_spec(c) {
            Err(e) => FixOutV { changed: bom, out: Err(FixErrorV::Parse(e)) },
            Ok(p) => {
                let m = p.0;
                let body = trim_nl_spec(p.1);
                let name_ok = match assoc_get(m, "name"@) {
                    Some(ValV::Scalar(ScalarV::Str(s))) => !is_blank(s) && nfkc(trim_spec(s))
                        == nfkc(dir),
                    _ => false,
                };
                let m1 = if name_ok {
                    m
                } else {
                    assoc_insert(m, "name"@, ValV::Scalar(ScalarV::Str(dir)))
                };
                let desc_ok = match assoc_get(m1, "description"@) {
                    Some(ValV::Scalar(ScalarV::Str(d))) => !is_blank(d),
                    _ => false,
                };
                let m2 = if desc_ok {
                    m1
                } else {
                    assoc_insert(m1, "description"@, ValV::Scalar(ScalarV::Str(derive_spec(body))))
                };
                let changed0 = bom || !name_ok || !desc_ok;
                match assoc_get(m2, "metadata"@) {
                    Some(ValV::Mapping(pairs)) => match norm_pairs(pairs) {
                        None => FixOutV {
                            changed: changed0,
                            out: Err(FixErrorV::UnsupportedValueType),
                        },
                        Some(np) => {
                            let meta_changed = np != pairs;
                            let m3 = if meta_changed {
                                assoc_insert(m2, "metadata"@, ValV::Mapping(np))
                            } else {
                                m2
                            };
                            finish_spec(c, m3, body, changed0 || meta_changed)
                        },
                    },
                    _ => finish_spec(c, m2, body, changed0),
                }
            },
        }
    }
}


/// Prune, render and assemble: the tail every fix branch shares.
fn finish_fix(c: &Vec<char>, m: MetaMap, body: &Vec<char>, changed0: bool) -> (r: FixResult)
    requires
        m.wf(),
    ensures
        ({
            let o = finish_spec(c@, m@, body@, changed0);
            &&& r.changed == o.changed
            &&& r.target_path is None
            &&& match (o.out, r.new_content) {
                (Ok(t), Some(s)) => s@ == t && r.errors@.len() == 0,
                (Err(e), None) => r.errors@.len() == 1 && r.errors@[0]@ == e,
                _ => false,
            }
        }),
{
    let ghost m0 = m@;
    let mut m = m;
    m.remove_nulls();
    match format_frontmatter(&m) {
        Err(e) => {
            let mut errors: Vec<FixError> = Vec::new();
            errors.push(e);
            FixResult { changed: changed0, errors, new_content: None, target_path: None }
        },
        Ok(f) => {
            let mut outv = str_to_chars(f.as_str());
            outv.push('\n');
            outv.push('\n');
            push_all(&mut outv, body);
            proof {
                assert(outv@ =~= f@ + seq!['\n', '\n'] + body@);
            }
            let mut trimmed = trim_ws_end(&outv);
            trimmed.push('\n');
            proof {
                assert(trimmed@ =~= trim_end_spec(f@ + seq!['\n', '\n'] + body@) + seq!['\n']);
            }
            let same = chars_eq(&trimmed, c);
            FixResult {
                changed: changed0 || !same,
                errors: Vec::new(),
                new_content: Some(chars_to_string(&trimmed)),
                target_path: None,
            }
        },
    }
}

/// Fix a document's text against its directory name.
///
/// Re-parses or synthesizes the mapping, reconciles the name, backfills the
/// description, normalizes nested metadata, prunes nulls, and re-renders
/// canonically; `changed` reports whether the result differs from the input
/// (a leading byte-order mark alone counts as a change). The caller
/// persists `new_content` and resolves `target_path`.
#[verifier::rlimit(100)]
pub fn fix_content(content: &str, dir_name: &str) -> (r: FixResult)
    ensures
        ({
            let o = fix_spec(content@, dir_name@);
            &&& r.changed == o.changed
            &&& r.target_path is None
            &&& match (o.out, r.new_content) {
                (Ok(t), Some(s)) => s@ == t && r.errors@.len() == 0,
                (Err(e), None) => r.errors@.len() == 1 && r.errors@[0]@ == e,
                _ => false,
            }
        }),
{
    let raw = str_to_chars(content);
    let mut a: usize = 0;
    loop
        invariant
            0 <= a <= raw@.len(),
            forall|j: int| 0 <= j < a ==> raw@[j] == '\u{feff}',
        ensures
            0 <= a <= raw@.len(),
            forall|j: int| 0 <= j < a ==> raw@[j] == '\u{feff}',
            a == raw@.len() || raw@[a as int] != '\u{feff}',
        decreases raw@.len() - a,
    {
        if a >= raw.len() {
            break ;
        }
        if raw[a] != '\u{feff}' {
            break ;
        }
        a = a + 1;
    }
    let c = copy_range(&raw, a, raw.len());
    proof {
        lemma_strip_boms_at(raw@, a as int);
        assert(c@ == strip_boms(content@));
    }
    let ghost cc = strip_boms(content@);
    let bom = a > 0;
    proof {
        if a > 0 {
            assert(cc.len() < content@.len());
            assert(cc != content@);
        } else {
            assert(cc =~= content@);
        }
    }
    let starts = c.len() >= 3 && c[0] == '-' && c[1] == '-' && c[2] == '-';
    proof {
        if starts {
            assert(c@.subrange(0, 3) =~= delim());
            assert(starts_with_delim(cc));
        } else {
            if c@.len() >= 3 && c@.subrange(0, 3) == delim() {
                assert(c@[0] == '-' && c@[1] == '-' && c@[2] == '-') by {
                    assert(c@.subrange(0, 3)[0] == c@[0]);
                    assert(c@.subrange(0, 3)[1] == c@[1]);
                    assert(c@.subrange(0, 3)[2] == c@[2]);
                }
            }
            assert(!starts_with_delim(cc));
        }
    }
    if !starts {
        let cs = chars_to_string(&c);
        let desc = derive_description(cs.as_str());
        let body_chars = trim_newlines(&c);
        let mut m = MetaMap::new();
        proof {
            assert(m@ =~= Seq::<(Seq<char>, ValV)>::empty());
        }
        m.insert("name".to_owned(), Val::Scalar(Scalar::Str(dir_name.to_owned())));
        m.insert("description".to_owned(), Val::Scalar(Scalar::Str(desc)));
        let r = finish_fix(&c, m, &body_chars, true);
        proof {
            assert(fix_spec(content@, dir_name@) == finish_spec(
                cc,
                assoc_insert(
                    assoc_insert(
                        Seq::<(Seq<char>, ValV)>::empty(),
                        "name"@,
                        ValV::Scalar(ScalarV::Str(dir_name@)),
                    ),
                    "description"@,
                    ValV::Scalar(ScalarV::Str(derive_spec(cc))),
                ),
                trim_nl_spec(cc),
                true,
            ));
        }
        return r;
    }
    let cs = chars_to_string(&c);
    match parse_frontmatter(cs.as_str()) {
        Err(e) => {
            let mut errors: Vec<FixError> = Vec::new();
            errors.push(FixError::Parse(e));
            FixResult { changed: bom, errors, new_content: None, target_path: None }
        },
        Ok((m0, body_s)) => {
            let mut m = m0;
            let body_raw = str_to_chars(body_s.as_str());
            let body_chars = trim_newlines(&body_raw);
            // reconcile the name with the directory
            let name_ok = match m.get("name") {
                Some(Val::Scalar(Scalar::Str(s))) => {
                    let sc = str_to_chars(s.as_str());
                    if blank(&sc) {
                        false
                    } else {
                        let t = trim_ws(&sc);
                        let ts = chars_to_string(&t);
                        let nn = nfkc_str(ts.as_str());
                        let dn = nfkc_str(dir_name);
                        str_eq(nn.as_str(), dn.as_str())
                    }
                },
                _ => false,
            };
            if !name_ok {
                m.insert("name".to_owned(), Val::Scalar(Scalar::Str(dir_name.to_owned())));
            }
            // backfill the description from the body
            let desc_ok = match m.get("description") {
                Some(Val::Scalar(Scalar::Str(d))) => {
                    let dc = str_to_chars(d.as_str());
                    !blank(&dc)
                },
                _ => false,
            };
            if !desc_ok {
                let bs = chars_to_string(&body_chars);
                let d = derive_description(bs.as_str());
                m.insert("description".to_owned(), Val::Scalar(Scalar::Str(d)));
            }
            // normalize the nested metadata mapping
            let meta = match m.get("metadata") {
                Some(Val::Mapping(pairs)) => {
                    match normalize_metadata_mapping(pairs) {
                        Err(e) => {
                            let mut errors: Vec<FixError> = Vec::new();
                            errors.push(e);
                            return FixResult {
                                changed: bom || !name_ok || !desc_ok,
                                errors,
                                new_content: None,
                                target_path: None,
                            };
                        },
                        Ok(np) => {
                            let ch = !crate::yaml::pairs_eq(pairs, &np);
                            Some((np, ch))
                        },
                    }
                },
                _ => None,
            };
            match meta {
                Some((np, ch)) => {
                    if ch {
                        m.insert("metadata".to_owned(), Val::Mapping(np));
                    }
                    finish_fix(&c, m, &body_chars, bom || !name_ok || !desc_ok || ch)
                },
                None => finish_fix(&c, m, &body_chars, bom || !name_ok || !desc_ok),
            }
        },
    }
}

} // verus!
