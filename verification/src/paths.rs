//! Pure path-text helpers: final components, display-relative paths, and
//! the canonical skill file name.

use vstd::prelude::*;

use crate::text::{copy_range, str_to_chars, chars_to_string};

verus! {

/// The longest suffix of `t` without a separator.
pub open spec fn name_suffix(t: Seq<char>) -> Seq<char>
    decreases t.len(),
{
    if t.len() == 0 || t.last() == '/' {
        Seq::empty()
    } else {
        name_suffix(t.drop_last()).push(t.last())
    }
}

/// Trailing separators stripped.
pub open spec fn strip_slashes(s: Seq<char>) -> Seq<char>
    decreases s.len(),
{
    if s.len() > 0 && s.last() == '/' {
        strip_slashes(s.drop_last())
    } else {
        s
    }
}

proof fn lemma_strip_slashes_len(s: Seq<char>)
    ensures
        strip_slashes(s).len() <= s.len(),
    decreases s.len(),
{
    if s.len() > 0 && s.last() == '/' {
        lemma_strip_slashes_len(s.drop_last());
    }
}

/// A scan that found the last non-separator fixes the stripped form.
proof fn lemma_strip_slashes_at(s: Seq<char>, b: int)
    requires
        0 <= b <= s.len(),
        forall|i: int| b <= i < s.len() ==> s[i] == '/',
        b == 0 || s[b - 1] != '/',
    ensures
        strip_slashes(s) == s.subrange(0, b),
    decreases s.len() - b,
{
    if b == s.len() {
        assert(s.subrange(0, s.len() as int) =~= s);
    } else {
        lemma_strip_slashes_at(s.drop_last(), b);
        assert(s.drop_last().subrange(0, b) =~= s.subrange(0, b));
    }
}

/// The final component of a path, as the standard library's `file_name`
/// reads it: trailing separators and trailing current-directory components
/// are ignored; a path ending in a parent-directory component, or with
/// nothing left, has no final component.
pub open spec fn dir_name_core(t: Seq<char>) -> Seq<char>
    decreases t.len(),
        via dir_name_core_decreases
{
    let n = name_suffix(t);
    if n == seq!['.'] {
        dir_name_core(strip_slashes(t.drop_last()))
    } else if n == seq!['.', '.'] {
        Seq::empty()
    } else {
        n
    }
}

#[via_fn]
proof fn dir_name_core_decreases(t: Seq<char>) {
    if name_suffix(t) == seq!['.'] {
        if t.len() == 0 {
            assert(name_suffix(t) =~= Seq::<char>::empty());
            assert(name_suffix(t).len() == 0 && seq!['.'].len() == 1);
        }
        lemma_strip_slashes_len(t.drop_last());
    }
}

/// The final component of a path.
pub open spec fn dir_name_spec(p: Seq<char>) -> Seq<char> {
    dir_name_core(strip_slashes(p))
}

/// A scan that fixes the final component: everything after position `a`.
pub proof fn lemma_name_suffix_at(t: Seq<char>, a: int)
    requires
        0 <= a <= t.len(),
        forall|j: int| a <= j < t.len() ==> t[j] != '/',
        a == 0 || t[a - 1] == '/',
    ensures
        name_suffix(t) == t.subrange(a, t.len() as int),
    decreases t.len() - a,
{
    if a == t.len() {
        if t.len() == 0 {
            assert(t.subrange(0, 0) =~= Seq::<char>::empty());
        } else {
            assert(t.last() == '/');
            assert(t.subrange(a, t.len() as int) =~= Seq::<char>::empty());
        }
    } else {
        assert(t.last() != '/');
        lemma_name_suffix_at(t.drop_last(), a);
        assert(t.drop_last().subrange(a, t.drop_last().len() as int).push(t.last()) =~= t.subrange(
            a,
            t.len() as int,
        ));
    }
}

/// The final component of a path: the text after the last separator,
/// ignoring trailing separators and current-directory components; empty
/// for a path ending in a parent-directory component or with nothing left.
pub fn get_dir_name(path: &str) -> (r: String)
    ensures
        r@ == dir_name_spec(path@),
{
    let mut t = str_to_chars(path);
    loop
        invariant
            dir_name_spec(path@) == dir_name_core(strip_slashes(t@)),
        decreases t@.len(),
    {
        // strip trailing separators
        let mut b: usize = t.len();
        while b > 0 && t[b - 1] == '/'
            invariant
                0 <= b <= t@.len(),
                forall|i: int| b <= i < t@.len() ==> t@[i] == '/',
            decreases b,
        {
            b = b - 1;
        }
        proof {
            lemma_strip_slashes_at(t@, b as int);
        }
        let u = copy_range(&t, 0, b);
        proof {
            assert(u@ == strip_slashes(t@));
            assert(strip_slashes(u@) == u@);
        }
        // the text after the last separator
        let mut a: usize = 0;
        let mut i: usize = 0;
        while i < u.len()
            invariant
                0 <= a <= i <= u@.len(),
                forall|j: int| a <= j < i ==> u@[j] != '/',
                a == 0 || u@[a - 1] == '/',
            decreases u.len() - i,
        {
            if u[i] == '/' {
                a = i + 1;
            }
            i = i + 1;
        }
        proof {
            lemma_name_suffix_at(u@, a as int);
        }
        let n = copy_range(&u, a, u.len());
        if n.len() == 1 && n[0] == '.' {
            proof {
                assert(n@ =~= seq!['.']);
                assert(u@.len() >= 1);
            }
            t = copy_range(&u, 0, u.len() - 1);
            proof {
                assert(t@ =~= u@.drop_last());
            }
        } else if n.len() == 2 && n[0] == '.' && n[1] == '.' {
            proof {
                assert(n@ =~= seq!['.', '.']);
                assert(dir_name_core(u@) =~= Seq::<char>::empty());
            }
            let empty: Vec<char> = Vec::new();
            proof {
                assert(empty@ =~= Seq::<char>::empty());
            }
            return chars_to_string(&empty);
        } else {
            proof {
                assert(n@ != seq!['.']) by {
                    if n@ == seq!['.'] {
                        assert(n@.len() == 1 && n@[0] == '.');
                    }
                }
                assert(n@ != seq!['.', '.']) by {
                    if n@ == seq!['.', '.'] {
                        assert(n@.len() == 2 && n@[0] == '.' && n@[1] == '.');
                    }
                }
                assert(dir_name_core(u@) == n@);
            }
            return chars_to_string(&n);
        }
    }
}

/// A path written relative to a root, as the standard library's
/// `strip_prefix` reads it: trailing separators on the root are ignored,
/// the part after `root/` is returned with extra leading separators
/// dropped, and a path not under the root is returned whole.
pub open spec fn display_path_spec(p: Seq<char>, root: Seq<char>) -> Seq<char> {
    let r = strip_slashes(root);
    if p == r {
        Seq::empty()
    } else if root.len() > 0 && p.len() > r.len() && p.subrange(0, r.len() as int) == r && p[r.len() as int]
        == '/' {
        crate::text::trim_start_p(p.subrange(r.len() as int, p.len() as int), |c: char| c == '/')
    } else {
        p
    }
}

/// Write a path relative to a root for display.
pub fn display_path(path: &str, root: &str) -> (r: String)
    ensures
        r@ == display_path_spec(path@, root@),
{
    let pv = str_to_chars(path);
    let rraw = str_to_chars(root);
    let mut b: usize = rraw.len();
    while b > 0 && rraw[b - 1] == '/'
        invariant
            0 <= b <= rraw@.len(),
            forall|i: int| b <= i < rraw@.len() ==> rraw@[i] == '/',
        decreases b,
    {
        b = b - 1;
    }
    proof {
        lemma_strip_slashes_at(rraw@, b as int);
    }
    let rv = copy_range(&rraw, 0, b);
    proof {
        assert(rv@ == strip_slashes(root@));
    }
    if crate::text::chars_eq(&pv, &rv) {
        let empty: Vec<char> = Vec::new();
        proof {
            assert(empty@ =~= Seq::<char>::empty());
        }
        return chars_to_string(&empty);
    }
    if rraw.len() > 0 && pv.len() > rv.len() {
        let head = copy_range(&pv, 0, rv.len());
        if crate::text::chars_eq(&head, &rv) && pv[rv.len()] == '/' {
            let rest = copy_range(&pv, rv.len(), pv.len());
            let mut a: usize = 0;
            while a < rest.len() && rest[a] == '/'
                invariant
                    0 <= a <= rest@.len(),
                    forall|j: int| 0 <= j < a ==> rest@[j] == '/',
                decreases rest.len() - a,
            {
                a = a + 1;
            }
            proof {
                crate::text::lemma_trim_start_at(rest@, a as int, |c: char| c == '/');
            }
            let out = copy_range(&rest, a, rest.len());
            return chars_to_string(&out);
        }
    }
    chars_to_string(&pv)
}

/// ASCII-case-insensitive equality of two characters.
pub open spec fn ascii_eq_ic(a: char, b: char) -> bool {
    let ua = a as u32;
    let ub = b as u32;
    a == b || (0x41 <= ua && ua <= 0x5a && ub == ua + 0x20) || (0x41 <= ub && ub <= 0x5a && ua == ub
        + 0x20)
}

/// ASCII-case-insensitive equality of two strings.
pub open spec fn str_eq_ic(a: Seq<char>, b: Seq<char>) -> bool {
    a.len() == b.len() && forall|i: int| 0 <= i < a.len() ==> ascii_eq_ic(#[trigger] a[i], b[i])
}

/// Compare two strings ignoring ASCII case.
pub fn eq_ignore_ascii(a: &str, b: &str) -> (r: bool)
    ensures
        r == str_eq_ic(a@, b@),
{
    let av = str_to_chars(a);
    let bv = str_to_chars(b);
    if av.len() != bv.len() {
        return false;
    }
    let mut i: usize = 0;
    while i < av.len()
        invariant
            av@ == a@,
            bv@ == b@,
            av@.len() == bv@.len(),
            0 <= i <= av@.len(),
            forall|j: int| 0 <= j < i ==> ascii_eq_ic(#[trigger] av@[j], bv@[j]),
        decreases av.len() - i,
    {
        let ca = av[i];
        let cb = bv[i];
        let ua = ca as u32;
        let ub = cb as u32;
        let same = ua == ub || (0x41 <= ua && ua <= 0x5a && ub == ua + 0x20) || (0x41 <= ub && ub
            <= 0x5a && ua == ub + 0x20);
        if !same {
            proof {
                lemma_char_code_eq(ca, cb);
                assert(!ascii_eq_ic(av@[i as int], bv@[i as int]));
            }
            return false;
        }
        proof {
            if ua == ub {
                lemma_char_code_eq(ca, cb);
            }
        }
        i = i + 1;
    }
    true
}

/// Characters agree exactly when their code points do.
proof fn lemma_char_code_eq(a: char, b: char)
    ensures
        (a as u32 == b as u32) <==> a == b,
{
    if a as u32 == b as u32 {
        vstd::utf8::char_u32_cast(a, a as u32);
        vstd::utf8::char_u32_cast(b, b as u32);
    }
}

/// Whether a file name is some case variant of the canonical skill file
/// name, other than the canonical one itself: such a file is renamed.
pub open spec fn rename_needed_spec(n: Seq<char>) -> bool {
    str_eq_ic(n, "skill.md"@) && n != "SKILL.md"@
}

/// Whether a skill file must be renamed to the canonical name.
pub fn needs_canonical_rename(file_name: &str) -> (r: bool)
    ensures
        r == rename_needed_spec(file_name@),
{
    eq_ignore_ascii(file_name, "skill.md") && !crate::text::str_eq(file_name, "SKILL.md")
}

} // verus!
