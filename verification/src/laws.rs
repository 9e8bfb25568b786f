//! The library's general laws, stated and proved once.
//!
//! Each law here holds for every input its premises admit; the scenario
//! counterparts with concrete values live in the test suite.

use vstd::prelude::*;

use crate::error::ValidationErrorV;
use crate::fix::{index_insert, norm_pairs};
use crate::formatting::{format_spec, join_lines, json_quote_spec};
use crate::fix::{finish_spec, fix_spec, norm_pairs as fixer_norm_pairs, starts_with_delim, strip_boms, FixOutV};
use crate::mapping::{
    assoc_get, assoc_has, drop_null_entries, lemma_assoc_get_has, lemma_drop_nulls_get,
    sorted_keys,
};
use crate::parse::{delim, is_delim_line, line_end, parse_spec, split_spec};
use crate::text::{is_blank, is_ws_char, trim_end_spec, trim_nl_spec, trim_spec};
use crate::unicode::nfkc;
use crate::validation::{
    description_violations, name_rule_violations, name_violations, validate_spec,
};
use crate::yaml::{NodeV, ScalarV, ValV};

verus! {

/// Whether a violation list reports a missing field of the given name.
pub open spec fn reports_missing(vs: Seq<ValidationErrorV>, field: Seq<char>) -> bool {
    exists|i: int| 0 <= i < vs.len() && vs[i] == ValidationErrorV::MissingField(field)
}

/// Validation completeness: a mapping missing both required fields is
/// reported for both in the same call; nothing stops at the first.
pub proof fn lemma_validation_completeness(
    m: Seq<(Seq<char>, ValV)>,
    dir: Option<Seq<char>>,
)
    requires
        !assoc_has(m, "name"@),
        !assoc_has(m, "description"@),
    ensures
        reports_missing(validate_spec(m, dir), "name"@),
        reports_missing(validate_spec(m, dir), "description"@),
{
    lemma_assoc_get_has(m, "name"@);
    lemma_assoc_get_has(m, "description"@);
    assert(name_violations(m, dir) == seq![ValidationErrorV::MissingField("name"@)]);
    assert(description_violations(m) == seq![ValidationErrorV::MissingField("description"@)]);
    let out = validate_spec(m, dir);
    let a = crate::validation::unknown_violations(m);
    let i = a.len() as int;
    assert(out[i] == ValidationErrorV::MissingField("name"@));
    let j = a.len() + 1 as int;
    assert(out[j] == ValidationErrorV::MissingField("description"@));
}

/// Whether a violation list reports a name-directory mismatch.
pub open spec fn reports_mismatch(vs: Seq<ValidationErrorV>) -> bool {
    exists|i: int| 0 <= i < vs.len() && (#[trigger] vs[i] matches ValidationErrorV::NameMismatch { .. })
}

/// NFKC equivalence: the name rules report a directory mismatch exactly
/// when the NFKC-normalized trimmed name differs from the NFKC-normalized
/// directory name. Two spellings of one text in different Unicode forms
/// therefore validate alike.
pub proof fn lemma_nfkc_equivalence(s: Seq<char>, d: Seq<char>)
    ensures
        reports_mismatch(name_rule_violations(s, Some(d))) <==> nfkc(trim_spec(s)) != nfkc(d),
{
    let n = nfkc(trim_spec(s));
    let out = name_rule_violations(s, Some(d));
    let c1: Seq<ValidationErrorV> = if n.len() > crate::MAX_SKILL_NAME_LENGTH as int {
        seq![
            ValidationErrorV::NameTooLong {
                name: n,
                limit: crate::MAX_SKILL_NAME_LENGTH as int,
                actual: n.len() as int,
            },
        ]
    } else {
        Seq::empty()
    };
    let c2: Seq<ValidationErrorV> = if n != crate::unicode::lower(n) {
        seq![ValidationErrorV::NameNotLowercase(n)]
    } else {
        Seq::empty()
    };
    let c3: Seq<ValidationErrorV> = if n.len() > 0 && (n[0] == '-' || n.last() == '-') {
        seq![ValidationErrorV::NameInvalidHyphen]
    } else {
        Seq::empty()
    };
    let c4: Seq<ValidationErrorV> = if crate::validation::has_double_hyphen(n) {
        seq![ValidationErrorV::NameConsecutiveHyphens]
    } else {
        Seq::empty()
    };
    let c5: Seq<ValidationErrorV> = if crate::validation::has_invalid_name_char(n) {
        seq![ValidationErrorV::NameInvalidChars(n)]
    } else {
        Seq::empty()
    };
    let c6: Seq<ValidationErrorV> = if nfkc(d) != n {
        seq![ValidationErrorV::NameMismatch { dir: d, name: n }]
    } else {
        Seq::empty()
    };
    assert(out == c1 + c2 + c3 + c4 + c5 + c6);
    if nfkc(d) != n {
        assert(out[out.len() - 1] == ValidationErrorV::NameMismatch { dir: d, name: n });
        assert(reports_mismatch(out));
    } else {
        assert forall|i: int| 0 <= i < out.len() implies !(#[trigger] out[i]
            matches ValidationErrorV::NameMismatch { .. }) by {
            let l1 = c1.len();
            let l2 = l1 + c2.len();
            let l3 = l2 + c3.len();
            let l4 = l3 + c4.len();
            let l5 = l4 + c5.len();
            if i < l1 {
                assert(out[i] == c1[i]);
            } else if i < l2 {
                assert(out[i] == c2[i - l1]);
            } else if i < l3 {
                assert(out[i] == c3[i - l2]);
            } else if i < l4 {
                assert(out[i] == c4[i - l3]);
            } else if i < l5 {
                assert(out[i] == c5[i - l4]);
            } else {
                assert(out[i] == c6[i - l5]);
            }
        }
    }
}

/// Quoting safety, the formatter's half: every string field value is
/// written as a quoted token (the rendering of a string value is
/// `json_quote_spec`), so text that merely resembles a boolean, number or
/// null reaches the decoder inside quotes. That the decoder then returns
/// the identical string is exercised by the test suite on such lookalikes.
pub proof fn lemma_quoting_safety(s: Seq<char>)
    ensures
        json_quote_spec(s).len() >= 2,
        json_quote_spec(s).first() == '"',
        json_quote_spec(s).last() == '"',
        crate::formatting::yaml_scalar_spec(ValV::Scalar(ScalarV::Str(s))) == Some(
            json_quote_spec(s),
        ),
{
    let q = json_quote_spec(s);
    assert(q.last() == seq!['"'][0]);
}

/// A position where a line of the block begins.
pub open spec fn block_line_start(block: Seq<char>, i: int) -> bool {
    0 <= i < block.len() && (i == 0 || block[i - 1] == '\n')
}

/// Delimiter-in-value safety: a block none of whose lines is exactly the
/// delimiter is returned whole, however many delimiter sequences occur
/// inside its lines, and the body after the closing line is untouched.
pub proof fn lemma_delimiter_in_value_safety(block: Seq<char>, body: Seq<char>)
    requires
        block.len() == 0 || block.last() == '\n',
        forall|i: int|
            block_line_start(block, i) ==> !is_delim_line(
                #[trigger] block.subrange(i, line_end(block, i)),
            ),
    ensures
        split_spec(
            seq!['-', '-', '-', '\n'] + block + seq!['-', '-', '-', '\n'] + body,
        ) == Ok::<(Seq<char>, Seq<char>), crate::error::ParseErrorV>((block, body)),
{
    let s = seq!['-', '-', '-', '\n'] + block + seq!['-', '-', '-', '\n'] + body;
    let bl = block.len() as int;
    assert(s.len() == 8 + bl + body.len());
    assert(s[3] == '\n');
    crate::parse::lemma_line_end_value(s, 0, 3);
    assert(s.subrange(0, 3) =~= delim());
    assert(is_delim_line(s.subrange(0, 3)));
    lemma_walk_block(s, block, body, 0);
    assert(crate::parse::find_close(s, 4) == Some((4 + bl, 7 + bl)));
    assert(s.subrange(4, 4 + bl) =~= block);
    assert(s.subrange(8 + bl, s.len() as int) =~= body);
}

/// Walking the block line by line from a line start reaches the closing
/// delimiter line, because no block line closes early.
proof fn lemma_walk_block(s: Seq<char>, block: Seq<char>, body: Seq<char>, i: int)
    requires
        s == seq!['-', '-', '-', '\n'] + block + seq!['-', '-', '-', '\n'] + body,
        block.len() == 0 || block.last() == '\n',
        forall|j: int|
            block_line_start(block, j) ==> !is_delim_line(
                #[trigger] block.subrange(j, line_end(block, j)),
            ),
        0 <= i <= block.len(),
        i == 0 || block[i - 1] == '\n',
    ensures
        crate::parse::find_close(s, 4 + i) == Some(
            (4 + block.len() as int, 7 + block.len() as int),
        ),
    decreases block.len() - i,
{
    let bl = block.len() as int;
    if i == bl {
        // the closing delimiter line starts here
        assert(s[4 + bl] == '-' && s[5 + bl] == '-' && s[6 + bl] == '-');
        assert(s[7 + bl] == '\n');
        crate::parse::lemma_line_end_value(s, 4 + bl, 7 + bl);
        assert(s.subrange(4 + bl, 7 + bl) =~= delim());
        assert(is_delim_line(s.subrange(4 + bl, 7 + bl)));
        assert(crate::parse::find_close(s, 4 + i) == Some((4 + bl, 7 + bl)));
    } else {
        // one line of the block: it is terminated inside the block and is
        // not a delimiter line
        crate::parse::lemma_line_end(block, i);
        let e = line_end(block, i);
        assert(e < bl) by {
            if e == bl {
                assert(block[bl - 1] == '\n');
            }
        }
        assert(block[e] == '\n');
        assert(forall|j: int| i <= j < e ==> s[4 + j] == block[j] && block[j] != '\n');
        assert(s[4 + e] == '\n');
        assert forall|j: int| 4 + i <= j < 4 + e implies s[j] != '\n' by {
            assert(s[j] == block[j - 4]);
        }
        crate::parse::lemma_line_end_value(s, 4 + i, 4 + e);
        assert(s.subrange(4 + i, 4 + e) =~= block.subrange(i, e));
        assert(block_line_start(block, i));
        assert(!is_delim_line(block.subrange(i, e)));
        lemma_walk_block(s, block, body, e + 1);
        assert(crate::parse::find_close(s, 4 + i) == crate::parse::find_close(s, 4 + e + 1));
    }
}

/// A nested entry whose key and value are both strings.
pub open spec fn is_str_pair(p: (NodeV, NodeV)) -> bool {
    (p.0 matches NodeV::Scalar(ScalarV::Str(_))) && (p.1 matches NodeV::Scalar(ScalarV::Str(_)))
}

/// Every entry of a normalized nested mapping is a string pair, and its
/// keys are pairwise distinct.
proof fn lemma_norm_pairs_shape(pairs: Seq<(NodeV, NodeV)>)
    ensures
        match norm_pairs(pairs) {
            Some(np) => (forall|i: int| 0 <= i < np.len() ==> is_str_pair(#[trigger] np[i])) && (
            forall|i: int, j: int| 0 <= i < j < np.len() ==> np[i].0 != np[j].0),
            None => true,
        },
    decreases pairs.len(),
{
    if pairs.len() > 0 {
        lemma_norm_pairs_shape(pairs.drop_last());
        match norm_pairs(pairs.drop_last()) {
            None => {},
            Some(m) => {
                match (
                    crate::formatting::node_string_spec(pairs.last().0),
                    crate::formatting::node_string_spec(pairs.last().1),
                ) {
                    (Some(k), Some(v)) => {
                        lemma_index_insert_shape(
                            m,
                            NodeV::Scalar(ScalarV::Str(k)),
                            NodeV::Scalar(ScalarV::Str(v)),
                        );
                    },
                    _ => {},
                }
            },
        }
    }
}

/// An insertion-ordered update keeps string-pair shape and key
/// distinctness.
proof fn lemma_index_insert_shape(m: Seq<(NodeV, NodeV)>, k: NodeV, v: NodeV)
    requires
        forall|i: int| 0 <= i < m.len() ==> is_str_pair(#[trigger] m[i]),
        forall|i: int, j: int| 0 <= i < j < m.len() ==> m[i].0 != m[j].0,
        is_str_pair((k, v)),
    ensures
        ({
            let out = index_insert(m, k, v);
            (forall|i: int| 0 <= i < out.len() ==> is_str_pair(#[trigger] out[i])) && (forall|
                i: int,
                j: int,
            |
                0 <= i < j < out.len() ==> out[i].0 != out[j].0)
        }),
    decreases m.len(),
{
    let out = index_insert(m, k, v);
    if m.len() == 0 {
        assert(out =~= seq![(k, v)]);
    } else if m[0].0 == k {
        assert(out == seq![(k, v)] + m.drop_first());
        assert forall|i: int, j: int| 0 <= i < j < out.len() implies out[i].0 != out[j].0 by {
            if i == 0 {
                assert(out[j] == m[j]);
                assert(m[0].0 != m[j].0);
            } else {
                assert(out[i] == m[i] && out[j] == m[j]);
            }
        }
    } else {
        let t = m.drop_first();
        assert(forall|i: int| 0 <= i < t.len() ==> #[trigger] t[i] == m[i + 1]);
        assert(forall|i: int| 0 <= i < t.len() ==> is_str_pair(#[trigger] t[i]));
        assert(forall|i: int, j: int| 0 <= i < j < t.len() ==> t[i].0 != t[j].0);
        lemma_index_insert_shape(t, k, v);
        let ins = index_insert(t, k, v);
        assert(out == seq![m[0]] + ins);
        assert forall|i: int, j: int| 0 <= i < j < out.len() implies out[i].0 != out[j].0 by {
            if i == 0 {
                assert(out[j] == ins[j - 1]);
                lemma_index_insert_keys(t, k, v, ins[j - 1].0);
            } else {
                assert(out[i] == ins[i - 1] && out[j] == ins[j - 1]);
            }
        }
    }
}

/// Every key of an insertion result is the new key or an old one.
proof fn lemma_index_insert_keys(m: Seq<(NodeV, NodeV)>, k: NodeV, v: NodeV, k2: NodeV)
    requires
        exists|i: int|
            0 <= i < index_insert(m, k, v).len() && index_insert(m, k, v)[i].0 == k2,
    ensures
        k2 == k || exists|i: int| 0 <= i < m.len() && m[i].0 == k2,
    decreases m.len(),
{
    let out = index_insert(m, k, v);
    let i = choose|i: int| 0 <= i < out.len() && out[i].0 == k2;
    if m.len() == 0 {
        assert(out[i] == (k, v));
    } else if m[0].0 == k {
        if i > 0 {
            assert(out[i] == m.drop_first()[i - 1]);
            assert(m.drop_first()[i - 1] == m[i]);
        }
    } else {
        if i == 0 {
            assert(out[0] == m[0]);
        } else {
            let ins = index_insert(m.drop_first(), k, v);
            assert(out[i] == ins[i - 1]);
            lemma_index_insert_keys(m.drop_first(), k, v, k2);
            if k2 != k {
                let j = choose|j: int|
                    0 <= j < m.drop_first().len() && m.drop_first()[j].0 == k2;
                assert(m[j + 1].0 == k2);
            }
        }
    }
}

/// Normalizing the nested metadata mapping is idempotent: a second pass
/// over an already-normalized mapping changes nothing, so the fixer's
/// coercion step reports no change the second time.
pub proof fn lemma_norm_pairs_idempotent(pairs: Seq<(NodeV, NodeV)>)
    ensures
        match norm_pairs(pairs) {
            Some(np) => norm_pairs(np) == Some(np),
            None => true,
        },
{
    lemma_norm_pairs_shape(pairs);
    match norm_pairs(pairs) {
        Some(np) => {
            lemma_norm_fixpoint(np);
        },
        None => {},
    }
}

/// A string-pair mapping with distinct keys normalizes to itself.
proof fn lemma_norm_fixpoint(np: Seq<(NodeV, NodeV)>)
    requires
        forall|i: int| 0 <= i < np.len() ==> is_str_pair(#[trigger] np[i]),
        forall|i: int, j: int| 0 <= i < j < np.len() ==> np[i].0 != np[j].0,
    ensures
        norm_pairs(np) == Some(np),
    decreases np.len(),
{
    if np.len() == 0 {
        assert(norm_pairs(np) == Some(Seq::<(NodeV, NodeV)>::empty()));
        assert(np =~= Seq::<(NodeV, NodeV)>::empty());
    } else {
        let t = np.drop_last();
        assert(forall|i: int| 0 <= i < t.len() ==> #[trigger] t[i] == np[i]);
        assert(forall|i: int| 0 <= i < t.len() ==> is_str_pair(#[trigger] t[i]));
        assert(forall|i: int, j: int| 0 <= i < j < t.len() ==> t[i].0 != t[j].0);
        lemma_norm_fixpoint(t);
        let k = np.last().0;
        let v = np.last().1;
        assert(is_str_pair(np[np.len() - 1]));
        assert(forall|j: int| 0 <= j < t.len() ==> t[j].0 != k);
        crate::fix::lemma_index_insert_append(t, k, v);
        match k {
            NodeV::Scalar(ScalarV::Str(ks)) => {
                match v {
                    NodeV::Scalar(ScalarV::Str(vs)) => {
                        assert(crate::formatting::node_string_spec(k) == Some(ks));
                        assert(crate::formatting::node_string_spec(v) == Some(vs));
                        assert(norm_pairs(np) == Some(index_insert(t, k, v)));
                        assert(index_insert(t, k, v) =~= np);
                    },
                    _ => {
                        assert(false);
                    },
                }
            },
            _ => {
                assert(false);
            },
        }
    }
}

/// Dropping null fields twice is the same as dropping them once: the
/// fixer's pruning step is idempotent.
pub proof fn lemma_drop_nulls_idempotent(m: Seq<(Seq<char>, ValV)>)
    ensures
        drop_null_entries(drop_null_entries(m)) == drop_null_entries(m),
    decreases m.len(),
{
    if m.len() > 0 {
        lemma_drop_nulls_idempotent(m.drop_last());
        if m.last().1 == ValV::Scalar(ScalarV::Null) {
        } else {
            let d = drop_null_entries(m.drop_last());
            assert(drop_null_entries(m) == d.push(m.last()));
            assert(d.push(m.last()).drop_last() =~= d);
            assert(drop_null_entries(d.push(m.last())) == drop_null_entries(d).push(m.last()));
        }
    }
}


/// Trimming the end never touches a prefix ending in a non-whitespace
/// character.
proof fn lemma_trim_end_keeps(z: Seq<char>, j: int)
    requires
        0 <= j < z.len(),
        !is_ws_char(z[j]),
    ensures
        trim_end_spec(z).len() > j,
        forall|i: int| 0 <= i <= j ==> #[trigger] trim_end_spec(z)[i] == z[i],
    decreases z.len(),
{
    let p = |c: char| is_ws_char(c);
    if z.len() > 0 && is_ws_char(z.last()) {
        assert(j < z.len() - 1);
        assert(z.drop_last()[j] == z[j]);
        lemma_trim_end_keeps(z.drop_last(), j);
        assert(trim_end_spec(z) == trim_end_spec(z.drop_last()));
    }
}

/// Joined lines begin with the first line.
proof fn lemma_join_head(ls: Seq<Seq<char>>)
    requires
        ls.len() > 0,
    ensures
        join_lines(ls).len() >= ls[0].len(),
        forall|i: int| 0 <= i < ls[0].len() ==> #[trigger] join_lines(ls)[i] == ls[0][i],
    decreases ls.len(),
{
    if ls.len() == 1 {
    } else {
        assert(ls.drop_last()[0] == ls[0]);
        lemma_join_head(ls.drop_last());
        let head = join_lines(ls.drop_last());
        assert(join_lines(ls) == head + seq!['\n'] + ls.last());
        assert forall|i: int| 0 <= i < ls[0].len() implies #[trigger] join_lines(ls)[i]
            == ls[0][i] by {
            assert(join_lines(ls)[i] == head[i]);
        }
    }
}

/// The canonical text a successful fix writes: it opens with the delimiter
/// characters and carries no byte-order mark.
proof fn lemma_finish_text_head(m: Seq<(Seq<char>, ValV)>, c: Seq<char>, body: Seq<char>, ch: bool)
    requires
        finish_spec(c, m, body, ch).out is Ok,
    ensures
        ({
            let t = finish_spec(c, m, body, ch).out->Ok_0;
            &&& starts_with_delim(t)
            &&& t.len() >= 4
            &&& t[0] != '\u{feff}'
        }),
{
    let pruned = drop_null_entries(m);
    let f = format_spec(pruned).unwrap();
    let lines = seq![crate::parse::delim()] + (match crate::formatting::opt_cat(
        crate::formatting::known_lines(pruned),
        crate::formatting::unknown_lines(pruned),
    ) {
        Some(ls) => ls,
        None => Seq::empty(),
    }) + seq![crate::parse::delim()];
    assert(f == join_lines(lines));
    assert(lines[0] == crate::parse::delim());
    lemma_join_head(lines);
    assert(f.len() >= 3 && f[0] == '-' && f[1] == '-' && f[2] == '-');
    let z = f + seq!['\n', '\n'] + body;
    assert(z[0] == '-' && z[1] == '-' && z[2] == '-');
    assert(!is_ws_char('-')) by {
        assert(('-' as u32) == 0x2d);
    }
    lemma_trim_end_keeps(z, 2);
    let t = trim_end_spec(z) + seq!['\n'];
    assert(t[0] == '-' && t[1] == '-' && t[2] == '-');
    assert(t.subrange(0, 3) =~= crate::parse::delim());
    assert(t[0] != '\u{feff}');
}

/// A text whose first character is not a byte-order mark is its own
/// BOM-stripped form.
proof fn lemma_strip_boms_noop(s: Seq<char>)
    requires
        s.len() == 0 || s[0] != '\u{feff}',
    ensures
        strip_boms(s) == s,
{
}

/// Fix idempotence: the text a successful fix writes is a fixpoint. For a
/// mapping in fixed shape — name reconciled with the directory, description
/// present and non-blank, nested metadata already normalized — whose
/// rendered text the decoder reads back to that very mapping and body,
/// running the fixer again reports no change and returns the same text.
///
/// The last premise is the decoder round trip the test suite exercises on
/// concrete documents; everything else is proved here once and for all.
pub proof fn lemma_fix_idempotent(
    c: Seq<char>,
    m: Seq<(Seq<char>, ValV)>,
    body: Seq<char>,
    ch: bool,
    dir: Seq<char>,
)
    requires
        trim_spec(dir) == dir,
        !is_blank(dir),
        sorted_keys(m),
        // the name is reconciled with the directory name
        match assoc_get(m, "name"@) {
            Some(v) => match v {
                ValV::Scalar(ScalarV::Str(s)) => !is_blank(s) && nfkc(trim_spec(s)) == nfkc(dir),
                _ => false,
            },
            None => false,
        },
        // the description is present and non-blank
        match assoc_get(m, "description"@) {
            Some(v) => match v {
                ValV::Scalar(ScalarV::Str(d)) => !is_blank(d),
                _ => false,
            },
            None => false,
        },
        // the nested metadata mapping, if any, is already normalized
        match assoc_get(m, "metadata"@) {
            Some(v) => match v {
                ValV::Mapping(pairs) => fixer_norm_pairs(pairs) == Some(pairs),
                _ => true,
            },
            None => true,
        },
        // the body carries no surrounding newlines
        trim_nl_spec(body) == body,
        finish_spec(c, m, body, ch).out is Ok,
        // the decoder reads the canonical text back unchanged
        parse_spec(finish_spec(c, m, body, ch).out->Ok_0) == Ok::<
            (Seq<(Seq<char>, ValV)>, Seq<char>),
            crate::error::ParseErrorV,
        >((drop_null_entries(m), body)),
    ensures
        ({
            let t = finish_spec(c, m, body, ch).out->Ok_0;
            fix_spec(t, dir) == (FixOutV { changed: false, out: Ok::<
                Seq<char>,
                crate::error::FixErrorV,
            >(t) })
        }),
{
    let t = finish_spec(c, m, body, ch).out->Ok_0;
    let pruned = drop_null_entries(m);
    let f = format_spec(pruned).unwrap();
    assert(t == trim_end_spec(f + seq!['\n', '\n'] + body) + seq!['\n']);
    lemma_finish_text_head(m, c, body, ch);
    lemma_strip_boms_noop(t);
    assert(strip_boms(t) == t);
    // the second run parses t back to (pruned, body)
    assert(parse_spec(t) == Ok::<(Seq<(Seq<char>, ValV)>, Seq<char>), crate::error::ParseErrorV>(
        (pruned, body),
    ));
    // the name is still reconciled after pruning
    crate::mapping::lemma_sorted_drop_nulls(m);
    lemma_drop_nulls_get(m, "name"@);
    lemma_drop_nulls_get(m, "description"@);
    lemma_drop_nulls_get(m, "metadata"@);
    let name_ok = match assoc_get(pruned, "name"@) {
        Some(v) => match v {
            ValV::Scalar(ScalarV::Str(s)) => !is_blank(s) && nfkc(trim_spec(s)) == nfkc(dir),
            _ => false,
        },
        None => false,
    };
    assert(name_ok);
    let desc_ok = match assoc_get(pruned, "description"@) {
        Some(v) => match v {
            ValV::Scalar(ScalarV::Str(d)) => !is_blank(d),
            _ => false,
        },
        None => false,
    };
    assert(desc_ok);
    // the metadata step reports no change
    match assoc_get(m, "metadata"@) {
        Some(v) => {
            if v != ValV::Scalar(ScalarV::Null) {
                assert(assoc_get(pruned, "metadata"@) == Some(v));
                match v {
                    ValV::Mapping(pairs) => {
                        assert(fixer_norm_pairs(pairs) == Some(pairs));
                    },
                    _ => {},
                }
            } else {
                assert(assoc_get(pruned, "metadata"@) is None);
            }
        },
        None => {
            assert(assoc_get(pruned, "metadata"@) is None);
        },
    }
    // the serialization tail rebuilds the identical text
    crate::laws::lemma_drop_nulls_idempotent(m);
    assert(drop_null_entries(pruned) == pruned);
    assert(trim_nl_spec(body) == body);
    assert(finish_spec(t, pruned, body, false) == (FixOutV {
        changed: false || (t != t),
        out: Ok::<Seq<char>, crate::error::FixErrorV>(t),
    }));
    assert(fix_spec(t, dir) == (FixOutV { changed: false, out: Ok::<
        Seq<char>,
        crate::error::FixErrorV,
    >(t) }));
}

} // verus!
