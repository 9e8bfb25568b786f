//! Character-level text utilities: whitespace, trimming, comparison.
//!
//! All executable text processing in this crate works over `Vec<char>` so
//! that every step is verified against a `Seq<char>` specification.

use vstd::prelude::*;

verus! {

/// The Unicode `White_Space` code points, as `char::is_whitespace` defines them.
pub open spec fn is_ws_char(c: char) -> bool {
    let u = c as u32;
    ||| u == 0x20
    ||| (0x09 <= u && u <= 0x0d)
    ||| u == 0x85
    ||| u == 0xa0
    ||| u == 0x1680
    ||| (0x2000 <= u && u <= 0x200a)
    ||| u == 0x2028
    ||| u == 0x2029
    ||| u == 0x202f
    ||| u == 0x205f
    ||| u == 0x3000
}

/// A string is blank when every character is whitespace.
pub open spec fn is_blank(s: Seq<char>) -> bool {
    forall|i: int| 0 <= i < s.len() ==> is_ws_char(s[i])
}

pub fn ws_char(c: char) -> (r: bool)
    ensures
        r == is_ws_char(c),
{
    let u = c as u32;
    u == 0x20 || (0x09 <= u && u <= 0x0d) || u == 0x85 || u == 0xa0 || u == 0x1680 || (0x2000 <= u
        && u <= 0x200a) || u == 0x2028 || u == 0x2029 || u == 0x202f || u == 0x205f || u == 0x3000
}

/// Drop the longest prefix of characters satisfying `p`.
pub open spec fn trim_start_p(s: Seq<char>, p: spec_fn(char) -> bool) -> Seq<char>
    decreases s.len(),
{
    if s.len() > 0 && p(s[0]) {
        trim_start_p(s.drop_first(), p)
    } else {
        s
    }
}

/// Drop the longest suffix of characters satisfying `p`.
pub open spec fn trim_end_p(s: Seq<char>, p: spec_fn(char) -> bool) -> Seq<char>
    decreases s.len(),
{
    if s.len() > 0 && p(s[s.len() - 1]) {
        trim_end_p(s.drop_last(), p)
    } else {
        s
    }
}

/// Whitespace trimmed from both ends, as `str::trim` does.
pub open spec fn trim_spec(s: Seq<char>) -> Seq<char> {
    trim_end_p(trim_start_p(s, |c: char| is_ws_char(c)), |c: char| is_ws_char(c))
}

pub proof fn lemma_trim_start_at(s: Seq<char>, a: int, p: spec_fn(char) -> bool)
    requires
        0 <= a <= s.len(),
        forall|i: int| 0 <= i < a ==> p(s[i]),
        a == s.len() || !p(s[a]),
    ensures
        trim_start_p(s, p) == s.subrange(a, s.len() as int),
    decreases a,
{
    if a == 0 {
        assert(s.subrange(0, s.len() as int) =~= s);
    } else {
        lemma_trim_start_at(s.drop_first(), a - 1, p);
        assert(s.drop_first().subrange(a - 1, s.drop_first().len() as int) =~= s.subrange(
            a,
            s.len() as int,
        ));
    }
}

pub proof fn lemma_trim_end_at(s: Seq<char>, b: int, p: spec_fn(char) -> bool)
    requires
        0 <= b <= s.len(),
        forall|i: int| b <= i < s.len() ==> p(s[i]),
        b == 0 || !p(s[b - 1]),
    ensures
        trim_end_p(s, p) == s.subrange(0, b),
    decreases s.len() - b,
{
    if b == s.len() {
        assert(s.subrange(0, s.len() as int) =~= s);
    } else {
        lemma_trim_end_at(s.drop_last(), b, p);
        assert(s.drop_last().subrange(0, b) =~= s.subrange(0, b));
    }
}

/// Trim whitespace from both ends.
pub fn trim_ws(v: &Vec<char>) -> (r: Vec<char>)
    ensures
        r@ == trim_spec(v@),
{
    let ghost p = |c: char| is_ws_char(c);
    let mut a: usize = 0;
    while a < v.len() && ws_char(v[a])
        invariant
            0 <= a <= v.len(),
            forall|i: int| 0 <= i < a ==> is_ws_char(v@[i]),
        decreases v.len() - a,
    {
        a = a + 1;
    }
    let mut b: usize = v.len();
    while b > a && ws_char(v[b - 1])
        invariant
            a <= b <= v.len(),
            forall|i: int| b <= i < v.len() ==> is_ws_char(v@[i]),
        decreases b,
    {
        b = b - 1;
    }
    proof {
        lemma_trim_start_at(v@, a as int, p);
        if b == a {
            lemma_trim_end_at(v@.subrange(a as int, v@.len() as int), 0, p);
        } else {
            lemma_trim_end_at(v@.subrange(a as int, v@.len() as int), b - a, p);
        }
        assert(v@.subrange(a as int, v@.len() as int).subrange(0, b - a) =~= v@.subrange(
            a as int,
            b as int,
        ));
    }
    copy_range(v, a, b)
}

/// Trim newline characters from both ends, as `str::trim_matches('\n')` does.
pub open spec fn trim_nl_spec(s: Seq<char>) -> Seq<char> {
    trim_end_p(trim_start_p(s, |c: char| c == '\n'), |c: char| c == '\n')
}

pub fn trim_newlines(v: &Vec<char>) -> (r: Vec<char>)
    ensures
        r@ == trim_nl_spec(v@),
{
    let ghost p = |c: char| c == '\n';
    let mut a: usize = 0;
    while a < v.len() && v[a] == '\n'
        invariant
            0 <= a <= v.len(),
            forall|i: int| 0 <= i < a ==> v@[i] == '\n',
        decreases v.len() - a,
    {
        a = a + 1;
    }
    let mut b: usize = v.len();
    while b > a && v[b - 1] == '\n'
        invariant
            a <= b <= v.len(),
            forall|i: int| b <= i < v.len() ==> v@[i] == '\n',
        decreases b,
    {
        b = b - 1;
    }
    proof {
        lemma_trim_start_at(v@, a as int, p);
        if b == a {
            lemma_trim_end_at(v@.subrange(a as int, v@.len() as int), 0, p);
        } else {
            lemma_trim_end_at(v@.subrange(a as int, v@.len() as int), b - a, p);
        }
        assert(v@.subrange(a as int, v@.len() as int).subrange(0, b - a) =~= v@.subrange(
            a as int,
            b as int,
        ));
    }
    copy_range(v, a, b)
}

/// Trim whitespace from the end only, as `str::trim_end` does.
pub open spec fn trim_end_spec(s: Seq<char>) -> Seq<char> {
    trim_end_p(s, |c: char| is_ws_char(c))
}

pub fn trim_ws_end(v: &Vec<char>) -> (r: Vec<char>)
    ensures
        r@ == trim_end_spec(v@),
{
    let ghost p = |c: char| is_ws_char(c);
    let mut b: usize = v.len();
    while b > 0 && ws_char(v[b - 1])
        invariant
            0 <= b <= v.len(),
            forall|i: int| b <= i < v.len() ==> is_ws_char(v@[i]),
        decreases b,
    {
        b = b - 1;
    }
    proof {
        lemma_trim_end_at(v@, b as int, p);
    }
    copy_range(v, 0, b)
}

/// Copy the characters of `v` with indices in `[a, b)`.
pub fn copy_range(v: &Vec<char>, a: usize, b: usize) -> (r: Vec<char>)
    requires
        a <= b <= v@.len(),
    ensures
        r@ == v@.subrange(a as int, b as int),
{
    let mut r: Vec<char> = Vec::new();
    let mut i: usize = a;
    while i < b
        invariant
            a <= i <= b <= v@.len(),
            r@ == v@.subrange(a as int, i as int),
        decreases b - i,
    {
        r.push(v[i]);
        proof {
            assert(v@.subrange(a as int, i + 1 as int) =~= v@.subrange(a as int, i as int).push(
                v@[i as int],
            ));
        }
        i = i + 1;
    }
    r
}

/// Append every character of `v` to `out`.
pub fn push_all(out: &mut Vec<char>, v: &Vec<char>)
    ensures
        final(out)@ == old(out)@ + v@,
{
    let mut i: usize = 0;
    while i < v.len()
        invariant
            0 <= i <= v@.len(),
            out@ == old(out)@ + v@.subrange(0, i as int),
        decreases v.len() - i,
    {
        out.push(v[i]);
        proof {
            assert(old(out)@ + v@.subrange(0, i + 1 as int) =~= (old(out)@ + v@.subrange(
                0,
                i as int,
            )).push(v@[i as int]));
        }
        i = i + 1;
    }
    proof {
        assert(old(out)@ + v@.subrange(0, v@.len() as int) =~= old(out)@ + v@);
    }
}

/// Decide whether every character of `v` is whitespace.
pub fn blank(v: &Vec<char>) -> (r: bool)
    ensures
        r == is_blank(v@),
{
    let mut i: usize = 0;
    while i < v.len()
        invariant
            0 <= i <= v@.len(),
            forall|j: int| 0 <= j < i ==> is_ws_char(v@[j]),
        decreases v.len() - i,
    {
        if !ws_char(v[i]) {
            return false;
        }
        i = i + 1;
    }
    true
}

/// The view of a list of character vectors.
pub open spec fn chunks_view(s: Seq<Vec<char>>) -> Seq<Seq<char>> {
    s.map_values(|t: Vec<char>| t@)
}

/// The view of a list of collected violations or errors.
pub open spec fn views_of<T: View>(s: Seq<T>) -> Seq<T::V> {
    s.map_values(|e: T| e@)
}

/// `views_of` distributes over concatenation.
pub proof fn lemma_views_of_concat<T: View>(a: Seq<T>, b: Seq<T>)
    ensures
        views_of(a + b) == views_of(a) + views_of(b),
{
    assert(views_of(a + b) =~= views_of(a) + views_of(b)) by {
        assert forall|i: int| 0 <= i < a.len() + b.len() implies views_of(a + b)[i] == (views_of(a)
            + views_of(b))[i] by {
            if i < a.len() {
                assert((a + b)[i] == a[i]);
            } else {
                assert((a + b)[i] == b[i - a.len()]);
            }
        }
    }
}

/// `views_of` distributes over push.
pub proof fn lemma_views_of_push<T: View>(s: Seq<T>, x: T)
    ensures
        views_of(s.push(x)) == views_of(s).push(x@),
{
    assert(views_of(s.push(x)) =~= views_of(s).push(x@)) by {
        assert forall|i: int| 0 <= i < s.len() + 1 implies views_of(s.push(x))[i] == views_of(
            s,
        ).push(x@)[i] by {
            if i < s.len() {
                assert(s.push(x)[i] == s[i]);
            } else {
                assert(s.push(x)[i] == x);
            }
        }
    }
}

/// Lexicographic order on character sequences, by code point.
pub open spec fn seq_lt(a: Seq<char>, b: Seq<char>) -> bool
    decreases a.len(),
{
    if b.len() == 0 {
        false
    } else if a.len() == 0 {
        true
    } else if a[0] != b[0] {
        (a[0] as u32) < (b[0] as u32)
    } else {
        seq_lt(a.drop_first(), b.drop_first())
    }
}

/// Exactly one of `seq_lt(a, b)`, `a == b`, `seq_lt(b, a)` holds.
pub proof fn lemma_seq_lt_trichotomy(a: Seq<char>, b: Seq<char>)
    ensures
        seq_lt(a, b) || a == b || seq_lt(b, a),
        seq_lt(a, b) ==> a != b && !seq_lt(b, a),
        a == b ==> !seq_lt(a, b) && !seq_lt(b, a),
    decreases a.len(),
{
    if a.len() == 0 && b.len() == 0 {
        assert(a =~= b);
    } else if a.len() > 0 && b.len() > 0 {
        if a[0] == b[0] {
            lemma_seq_lt_trichotomy(a.drop_first(), b.drop_first());
            if a.drop_first() == b.drop_first() {
                assert(a =~= b) by {
                    assert forall|j: int| 0 <= j < a.len() implies a[j] == b[j] by {
                        if j >= 1 {
                            assert(a[j] == a.drop_first()[j - 1]);
                            assert(b[j] == b.drop_first()[j - 1]);
                        }
                    }
                }
            }
            if a == b {
                assert(a.drop_first() =~= b.drop_first());
            }
        } else {
            assert(a != b);
            lemma_char_u32_ne(a[0], b[0]);
        }
    }
}

/// Compare two character vectors in lexicographic order.
pub fn chars_lt(a: &Vec<char>, b: &Vec<char>) -> (r: bool)
    ensures
        r == seq_lt(a@, b@),
{
    let mut i: usize = 0;
    proof {
        assert(a@.subrange(0, a@.len() as int) =~= a@);
        assert(b@.subrange(0, b@.len() as int) =~= b@);
    }
    loop
        invariant
            0 <= i <= a@.len(),
            i <= b@.len(),
            forall|j: int| 0 <= j < i ==> a@[j] == b@[j],
            seq_lt(a@, b@) == seq_lt(a@.subrange(i as int, a@.len() as int), b@.subrange(i as int, b@.len() as int)),
        decreases a@.len() - i,
    {
        proof {
            lemma_seq_lt_suffix_step(a@, b@, i as int);
        }
        if i >= b.len() {
            return false;
        }
        if i >= a.len() {
            return true;
        }
        let ca = a[i];
        let cb = b[i];
        if ca as u32 != cb as u32 {
            return (ca as u32) < (cb as u32);
        }
        proof {
            assert(ca as u32 == cb as u32);
            lemma_char_u32_eq(ca, cb);
            let sa = a@.subrange(i as int, a@.len() as int);
            let sb = b@.subrange(i as int, b@.len() as int);
            assert(sa[0] == a@[i as int]);
            assert(sb[0] == b@[i as int]);
            assert(sa.drop_first() =~= a@.subrange(i + 1 as int, a@.len() as int));
            assert(sb.drop_first() =~= b@.subrange(i + 1 as int, b@.len() as int));
        }
        i = i + 1;
    }
}

/// Characters with equal code points are equal.
proof fn lemma_char_u32_eq(a: char, b: char)
    requires
        a as u32 == b as u32,
    ensures
        a == b,
{
    vstd::utf8::char_u32_cast(a, a as u32);
    vstd::utf8::char_u32_cast(b, b as u32);
}

/// Distinct characters have distinct code points.
proof fn lemma_char_u32_ne(a: char, b: char)
    requires
        a != b,
    ensures
        a as u32 != b as u32,
{
    if a as u32 == b as u32 {
        lemma_char_u32_eq(a, b);
    }
}

/// At the boundary cases of `chars_lt`'s loop, relate `seq_lt` on the suffixes
/// to the remaining lengths.
proof fn lemma_seq_lt_suffix_step(a: Seq<char>, b: Seq<char>, i: int)
    requires
        0 <= i <= a.len(),
        i <= b.len(),
    ensures
        i == b.len() ==> !seq_lt(a.subrange(i, a.len() as int), b.subrange(i, b.len() as int)),
        i == a.len() && i < b.len() ==> seq_lt(
            a.subrange(i, a.len() as int),
            b.subrange(i, b.len() as int),
        ),
{
    let sa = a.subrange(i, a.len() as int);
    let sb = b.subrange(i, b.len() as int);
    if i == b.len() {
        assert(sb.len() == 0);
    } else if i == a.len() {
        assert(sa.len() == 0 && sb.len() > 0);
    }
}

/// Equality of two character vectors.
pub fn chars_eq(a: &Vec<char>, b: &Vec<char>) -> (r: bool)
    ensures
        r == (a@ == b@),
{
    if a.len() != b.len() {
        return false;
    }
    let mut i: usize = 0;
    while i < a.len()
        invariant
            a@.len() == b@.len(),
            0 <= i <= a@.len(),
            forall|j: int| 0 <= j < i ==> a@[j] == b@[j],
        decreases a.len() - i,
    {
        if a[i] as u32 != b[i] as u32 {
            return false;
        }
        proof {
            lemma_char_u32_eq(a@[i as int], b@[i as int]);
        }
        i = i + 1;
    }
    proof {
        assert(a@ =~= b@);
    }
    true
}

/// Convert a string slice to its sequence of characters.
pub fn str_to_chars(s: &str) -> (r: Vec<char>)
    ensures
        r@ == s@,
{
    let n = s.unicode_len();
    let mut r: Vec<char> = Vec::new();
    let mut i: usize = 0;
    while i < n
        invariant
            n == s@.len(),
            0 <= i <= n,
            r@ == s@.subrange(0, i as int),
        decreases n - i,
    {
        r.push(s.get_char(i));
        proof {
            assert(s@.subrange(0, i + 1 as int) =~= s@.subrange(0, i as int).push(s@[i as int]));
        }
        i = i + 1;
    }
    proof {
        assert(s@.subrange(0, s@.len() as int) =~= s@);
    }
    r
}

/// Builds the `String` holding exactly the given characters.
///
/// Relies on std's `FromIterator` impl for `String`: collecting characters
/// yields the string of those characters in order.
#[verifier::external_body]
pub(crate) fn chars_to_string(v: &Vec<char>) -> (r: String)
    ensures
        r@ == v@,
{
    v.iter().collect()
}

/// Equality of two string slices.
pub fn str_eq(a: &str, b: &str) -> (r: bool)
    ensures
        r == (a@ == b@),
{
    let va = str_to_chars(a);
    let vb = str_to_chars(b);
    chars_eq(&va, &vb)
}

} // verus!
