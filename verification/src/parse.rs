//! Locating the frontmatter block and decoding it into a mapping.
//!
//! The splitter works line by line: the document must open with a delimiter
//! line, and the block ends at the next line that is exactly the delimiter.
//! A delimiter sequence inside a line therefore never ends the block early.

use vstd::prelude::*;

use crate::error::{ParseError, ParseErrorV};
use crate::mapping::{assoc_insert, MetaMap};
use crate::text::{
    blank, chars_to_string, copy_range, is_blank, str_to_chars, trim_spec, trim_ws,
};
use crate::yaml::{
    doc_pairs_view, yaml_decode, yaml_decode_spec, DecodeOutV, Decoded, Node, NodeV, Scalar,
    ScalarV, Val, ValV,
};

verus! {

/// The three-character delimiter.
pub open spec fn delim() -> Seq<char> {
    seq!['-', '-', '-']
}

/// A leading byte-order mark is not content.
pub open spec fn strip_bom(s: Seq<char>) -> Seq<char> {
    if s.len() > 0 && s[0] == '\u{feff}' {
        s.drop_first()
    } else {
        s
    }
}

/// One trailing carriage return is not part of a line's content.
pub open spec fn strip_cr(l: Seq<char>) -> Seq<char> {
    if l.len() > 0 && l.last() == '\r' {
        l.drop_last()
    } else {
        l
    }
}

/// One trailing newline, then one carriage return, stripped from a line.
pub open spec fn trim_line_ending_spec(l: Seq<char>) -> Seq<char> {
    strip_cr(if l.len() > 0 && l.last() == '\n' {
        l.drop_last()
    } else {
        l
    })
}

/// A line whose content, a trailing carriage return aside, is the delimiter.
pub open spec fn is_delim_line(l: Seq<char>) -> bool {
    strip_cr(l) == delim()
}

/// The index of the first newline at or after `from`, or the text's length.
pub open spec fn line_end(s: Seq<char>, from: int) -> int
    decreases s.len() - from,
        when 0 <= from <= s.len()
{
    if from < 0 || from >= s.len() {
        s.len() as int
    } else if s[from] == '\n' {
        from
    } else {
        line_end(s, from + 1)
    }
}

pub proof fn lemma_line_end(s: Seq<char>, from: int)
    requires
        0 <= from <= s.len(),
    ensures
        from <= line_end(s, from) <= s.len(),
        forall|j: int| from <= j < line_end(s, from) ==> s[j] != '\n',
        line_end(s, from) < s.len() ==> s[line_end(s, from)] == '\n',
    decreases s.len() - from,
{
    if from < s.len() && s[from] != '\n' {
        lemma_line_end(s, from + 1);
    }
}

/// The first delimiter line at or after `from`: its start and end indices.
pub open spec fn find_close(s: Seq<char>, from: int) -> Option<(int, int)>
    decreases s.len() + 1 - from,
        when 0 <= from
        via find_close_decreases
{
    if from < 0 || from >= s.len() {
        None
    } else {
        let e = line_end(s, from);
        if is_delim_line(s.subrange(from, e)) {
            Some((from, e))
        } else {
            find_close(s, e + 1)
        }
    }
}

#[via_fn]
proof fn find_close_decreases(s: Seq<char>, from: int) {
    if 0 <= from && from < s.len() {
        lemma_line_end(s, from);
    }
}

/// What the splitter yields: the block between the delimiter lines and the
/// raw text after the closing line.
pub open spec fn split_spec(s: Seq<char>) -> Result<(Seq<char>, Seq<char>), ParseErrorV> {
    if !is_delim_line(s.subrange(0, line_end(s, 0))) {
        Err(ParseErrorV::MissingFrontmatter)
    } else {
        let b = line_end(s, 0) + 1;
        if b > s.len() {
            Err(ParseErrorV::UnclosedFrontmatter)
        } else {
            match find_close(s, b) {
                None => Err(ParseErrorV::UnclosedFrontmatter),
                Some((cs, ce)) => {
                    let body = if ce < s.len() {
                        s.subrange(ce + 1, s.len() as int)
                    } else {
                        Seq::empty()
                    };
                    Ok((s.subrange(b, cs), body))
                },
            }
        }
    }
}

/// Build the mapping from decoded entries, left to right, later duplicates
/// replacing earlier ones; fail on the first non-string key.
pub open spec fn build_map_spec(pairs: Seq<(NodeV, ValV)>) -> Option<Seq<(Seq<char>, ValV)>>
    decreases pairs.len(),
{
    if pairs.len() == 0 {
        Some(Seq::empty())
    } else {
        match build_map_spec(pairs.drop_last()) {
            None => None,
            Some(m) => match pairs.last().0 {
                NodeV::Scalar(ScalarV::Str(k)) => Some(assoc_insert(m, k, pairs.last().1)),
                _ => None,
            },
        }
    }
}

/// What decoding the isolated block yields: a blank block is an empty
/// mapping; otherwise the decoder decides.
pub open spec fn decode_block_spec(block: Seq<char>) -> Result<
    Seq<(Seq<char>, ValV)>,
    ParseErrorV,
> {
    if is_blank(block) {
        Ok(Seq::empty())
    } else {
        match yaml_decode_spec(block) {
            DecodeOutV::Error(m) => Err(ParseErrorV::InvalidYaml(m)),
            DecodeOutV::NotMapping => Err(ParseErrorV::NotAMapping),
            DecodeOutV::Mapping(pairs) => match build_map_spec(pairs) {
                None => Err(ParseErrorV::NonStringKey),
                Some(m) => Ok(m),
            },
        }
    }
}

/// What parsing a whole document yields.
pub open spec fn parse_spec(content: Seq<char>) -> Result<
    (Seq<(Seq<char>, ValV)>, Seq<char>),
    ParseErrorV,
> {
    let s = strip_bom(content);
    match split_spec(s) {
        Err(e) => Err(e),
        Ok((block, raw_body)) => match decode_block_spec(block) {
            Err(e) => Err(e),
            Ok(m) => Ok((m, trim_spec(raw_body))),
        },
    }
}

/// The index of the first newline at or after `from`, or the text's length.
fn line_end_at(v: &Vec<char>, from: usize) -> (e: usize)
    requires
        from <= v@.len(),
    ensures
        e == line_end(v@, from as int),
        from <= e <= v@.len(),
{
    let mut i: usize = from;
    while i < v.len()
        invariant
            from <= i <= v@.len(),
            forall|j: int| from <= j < i ==> v@[j] != '\n',
        decreases v.len() - i,
    {
        if v[i] == '\n' {
            proof {
                lemma_line_end_value(v@, from as int, i as int);
            }
            return i;
        }
        i = i + 1;
    }
    proof {
        lemma_line_end_value(v@, from as int, v@.len() as int);
    }
    v.len()
}

/// A scan that found the first newline (or the end) has computed `line_end`.
pub proof fn lemma_line_end_value(s: Seq<char>, from: int, e: int)
    requires
        0 <= from <= e <= s.len(),
        forall|j: int| from <= j < e ==> s[j] != '\n',
        e < s.len() ==> s[e] == '\n',
    ensures
        line_end(s, from) == e,
    decreases e - from,
{
    if from < e {
        lemma_line_end_value(s, from + 1, e);
    }
}

/// Strip one trailing newline, then one trailing carriage return.
pub fn trim_line_ending(l: &Vec<char>) -> (r: Vec<char>)
    ensures
        r@ == trim_line_ending_spec(l@),
{
    let mut b: usize = l.len();
    if b > 0 && l[b - 1] == '\n' {
        b = b - 1;
    }
    if b > 0 && l[b - 1] == '\r' {
        b = b - 1;
    }
    let r = copy_range(l, 0, b);
    proof {
        let stripped = if l@.len() > 0 && l@.last() == '\n' {
            l@.drop_last()
        } else {
            l@
        };
        assert(stripped =~= l@.subrange(0, stripped.len() as int));
        assert(strip_cr(stripped) =~= l@.subrange(0, b as int));
    }
    r
}

/// Whether the characters of `v` in `[a, b)` form a delimiter line.
fn is_delim_range(v: &Vec<char>, a: usize, b: usize) -> (r: bool)
    requires
        a <= b <= v@.len(),
    ensures
        r == is_delim_line(v@.subrange(a as int, b as int)),
{
    let l = copy_range(v, a, b);
    let n = l.len();
    let content_len = if n > 0 && l[n - 1] == '\r' {
        n - 1
    } else {
        n
    };
    proof {
        let lv = l@;
        if lv.len() > 0 && lv.last() == '\r' {
            assert(strip_cr(lv) == lv.drop_last());
        } else {
            assert(strip_cr(lv) == lv);
        }
    }
    if content_len != 3 {
        proof {
            assert(strip_cr(l@).len() == content_len);
            assert(delim().len() == 3);
        }
        return false;
    }
    let r = l[0] == '-' && l[1] == '-' && l[2] == '-';
    proof {
        let sc = strip_cr(l@);
        assert(sc.len() == 3);
        assert(sc[0] == l@[0] && sc[1] == l@[1] && sc[2] == l@[2]);
        if r {
            assert(sc =~= delim());
        } else {
            assert(sc != delim()) by {
                if sc == delim() {
                    assert(sc[0] == '-' && sc[1] == '-' && sc[2] == '-');
                }
            }
        }
    }
    r
}

/// Split a document into its frontmatter block and the raw body after it.
///
/// The opening line must be exactly the delimiter; the block runs to the
/// next line that is exactly the delimiter, matched line by line.
pub fn split_frontmatter(v: &Vec<char>) -> (r: Result<(Vec<char>, Vec<char>), ParseError>)
    ensures
        match r {
            Ok(p) => split_spec(v@) == Ok::<_, ParseErrorV>((p.0@, p.1@)),
            Err(e) => split_spec(v@) == Err::<(Seq<char>, Seq<char>), _>(e@),
        },
{
    let e0 = line_end_at(v, 0);
    if !is_delim_range(v, 0, e0) {
        return Err(ParseError::MissingFrontmatter);
    }
    if e0 >= v.len() {
        // the opening line is the whole text, so no closing line can follow
        return Err(ParseError::UnclosedFrontmatter);
    }
    let b = e0 + 1;
    let mut ls: usize = b;
    loop
        invariant
            1 <= b <= ls,
            ls <= v@.len(),
            is_delim_line(v@.subrange(0, line_end(v@, 0))),
            b == line_end(v@, 0) + 1,
            b <= v@.len(),
            find_close(v@, b as int) == find_close(v@, ls as int),
        ensures
            b <= ls,
            ls < v@.len(),
            find_close(v@, b as int) == find_close(v@, ls as int),
            ({
                let e = line_end(v@, ls as int);
                is_delim_line(v@.subrange(ls as int, e))
            }),
        decreases v@.len() - ls,
    {
        if ls >= v.len() {
            proof {
                assert(find_close(v@, ls as int) is None);
            }
            return Err(ParseError::UnclosedFrontmatter);
        }
        let e = line_end_at(v, ls);
        if is_delim_range(v, ls, e) {
            break ;
        }
        if e >= v.len() {
            // that was the final line: nothing closes the block
            proof {
                assert(find_close(v@, e + 1) is None);
            }
            return Err(ParseError::UnclosedFrontmatter);
        }
        proof {
            lemma_line_end(v@, ls as int);
        }
        ls = e + 1;
    }
    let ce = line_end_at(v, ls);
    proof {
        assert(find_close(v@, b as int) == Some((ls as int, ce as int)));
    }
    let block = copy_range(v, b, ls);
    let body = if ce < v.len() {
        copy_range(v, ce + 1, v.len())
    } else {
        Vec::new()
    };
    proof {
        if ce >= v@.len() {
            assert(body@ =~= Seq::<char>::empty());
        }
    }
    Ok((block, body))
}

/// Build the metadata mapping from decoded top-level entries.
fn build_map(pairs: &Vec<(Node, Val)>) -> (r: Result<MetaMap, ParseError>)
    ensures
        match r {
            Ok(m) => build_map_spec(doc_pairs_view(pairs@)) == Some(m@) && m.wf(),
            Err(e) => build_map_spec(doc_pairs_view(pairs@)) is None && e@
                == ParseErrorV::NonStringKey,
        },
{
    let ghost dv = doc_pairs_view(pairs@);
    proof {
        assert(dv.len() == pairs@.len());
    }
    let mut m = MetaMap::new();
    let mut i: usize = 0;
    proof {
        assert(dv.subrange(0, 0) =~= Seq::<(NodeV, ValV)>::empty());
    }
    while i < pairs.len()
        invariant
            0 <= i <= pairs@.len(),
            dv == doc_pairs_view(pairs@),
            dv.len() == pairs@.len(),
            m.wf(),
            build_map_spec(dv.subrange(0, i as int)) == Some(m@),
        decreases pairs.len() - i,
    {
        proof {
            assert(dv[i as int] == (pairs@[i as int].0@, pairs@[i as int].1@));
            assert(dv.subrange(0, i + 1).drop_last() =~= dv.subrange(0, i as int));
            assert(dv.subrange(0, i + 1).last() == dv[i as int]);
        }
        match &pairs[i].0 {
            Node::Scalar(Scalar::Str(k)) => {
                let key = k.clone();
                let value = crate::mapping::duplicate_val(&pairs[i].1);
                m.insert(key, value);
            },
            _ => {
                proof {
                    assert(build_map_spec(dv.subrange(0, i + 1)) is None);
                    lemma_build_none_extends(dv, i + 1);
                }
                return Err(ParseError::NonStringKey);
            },
        }
        i = i + 1;
    }
    proof {
        assert(dv.subrange(0, dv.len() as int) =~= dv);
    }
    Ok(m)
}

/// Once a prefix fails, the whole build fails.
proof fn lemma_build_none_extends(s: Seq<(NodeV, ValV)>, i: int)
    requires
        0 <= i <= s.len(),
        build_map_spec(s.subrange(0, i)) is None,
    ensures
        build_map_spec(s) is None,
    decreases s.len() - i,
{
    if i == s.len() {
        assert(s.subrange(0, i) =~= s);
    } else {
        assert(s.subrange(0, i + 1).drop_last() =~= s.subrange(0, i));
        lemma_build_none_extends(s, i + 1);
    }
}

/// Parse a document into its metadata mapping and body text.
///
/// The body is everything after the closing delimiter line, trimmed of
/// surrounding whitespace. A blank block yields an empty mapping.
pub fn parse_frontmatter(content: &str) -> (r: Result<(MetaMap, String), ParseError>)
    ensures
        match r {
            Ok(p) => parse_spec(content@) == Ok::<_, ParseErrorV>((p.0@, p.1@)) && p.0.wf(),
            Err(e) => parse_spec(content@) == Err::<(Seq<(Seq<char>, ValV)>, Seq<char>), _>(e@),
        },
{
    let raw = str_to_chars(content);
    let v = if raw.len() > 0 && raw[0] == '\u{feff}' {
        copy_range(&raw, 1, raw.len())
    } else {
        copy_range(&raw, 0, raw.len())
    };
    proof {
        assert(v@ =~= strip_bom(content@));
    }
    let split = split_frontmatter(&v);
    match split {
        Err(e) => Err(e),
        Ok((block, raw_body)) => {
            let body = trim_ws(&raw_body);
            if blank(&block) {
                let m = MetaMap::new();
                proof {
                    assert(m@ =~= Seq::<(Seq<char>, ValV)>::empty());
                }
                Ok((m, chars_to_string(&body)))
            } else {
                let block_str = chars_to_string(&block);
                match yaml_decode(block_str.as_str()) {
                    Err(msg) => Err(ParseError::InvalidYaml(msg)),
                    Ok(Decoded::NotMapping) => Err(ParseError::NotAMapping),
                    Ok(Decoded::Mapping(pairs)) => match build_map(&pairs) {
                        Err(e) => Err(e),
                        Ok(m) => Ok((m, chars_to_string(&body))),
                    },
                }
            }
        },
    }
}

} // verus!
