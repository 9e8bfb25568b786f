//! The metadata mapping: field name to value, ordered by key.
//!
//! The mapping is kept as a vector of pairs whose keys are strictly
//! increasing in lexicographic order, so keys are unique and iteration
//! order is the canonical one.

use vstd::prelude::*;

use crate::text::{chars_lt, lemma_seq_lt_trichotomy, seq_lt, str_eq, str_to_chars};
use crate::yaml::{node_pairs_view, nodes_view, Node, Scalar, ScalarV, Val, ValV};

verus! {

/// Keys are strictly increasing, hence unique.
pub open spec fn sorted_keys<V>(s: Seq<(Seq<char>, V)>) -> bool {
    forall|i: int, j: int| 0 <= i < j < s.len() ==> seq_lt(s[i].0, s[j].0)
}

/// The value under the first occurrence of `k`, if any.
pub open spec fn assoc_get<V>(s: Seq<(Seq<char>, V)>, k: Seq<char>) -> Option<V>
    decreases s.len(),
{
    if s.len() == 0 {
        None
    } else if s[0].0 == k {
        Some(s[0].1)
    } else {
        assoc_get(s.drop_first(), k)
    }
}

/// Whether some entry has key `k`.
pub open spec fn assoc_has<V>(s: Seq<(Seq<char>, V)>, k: Seq<char>) -> bool {
    exists|i: int| 0 <= i < s.len() && s[i].0 == k
}

/// Insert `(k, v)`, replacing the entry under `k` in place if one exists,
/// else at the position that keeps keys sorted.
pub open spec fn assoc_insert<V>(s: Seq<(Seq<char>, V)>, k: Seq<char>, v: V) -> Seq<
    (Seq<char>, V),
>
    decreases s.len(),
{
    if s.len() == 0 {
        seq![(k, v)]
    } else if seq_lt(k, s[0].0) {
        seq![(k, v)] + s
    } else if k == s[0].0 {
        seq![(k, v)] + s.drop_first()
    } else {
        seq![s[0]] + assoc_insert(s.drop_first(), k, v)
    }
}

pub proof fn lemma_assoc_get_has<V>(s: Seq<(Seq<char>, V)>, k: Seq<char>)
    ensures
        assoc_get(s, k) is Some <==> assoc_has(s, k),
    decreases s.len(),
{
    if s.len() > 0 {
        if s[0].0 == k {
        } else {
            lemma_assoc_get_has(s.drop_first(), k);
            assert forall|i: int| 0 <= i < s.len() && s[i].0 == k implies assoc_has(
                s.drop_first(),
                k,
            ) by {
                assert(i != 0);
                assert(s.drop_first()[i - 1].0 == k);
            }
            if assoc_has(s.drop_first(), k) {
                let i = choose|i: int| 0 <= i < s.drop_first().len() && s.drop_first()[i].0 == k;
                assert(s[i + 1].0 == k);
            }
        }
    }
}

/// A first-match scan that passed `i` entries without finding `k` has
/// decided the lookup up to that point.
pub proof fn lemma_assoc_get_scan<V>(s: Seq<(Seq<char>, V)>, k: Seq<char>, i: int)
    requires
        0 <= i <= s.len(),
        forall|j: int| 0 <= j < i ==> s[j].0 != k,
    ensures
        i < s.len() && s[i].0 == k ==> assoc_get(s, k) == Some(s[i].1),
        i == s.len() ==> assoc_get(s, k) is None,
    decreases i,
{
    if i == 0 {
        if s.len() == 0 {
        } else if s[0].0 == k {
        }
    } else {
        assert(s[0].0 != k);
        lemma_assoc_get_scan(s.drop_first(), k, i - 1);
        if i < s.len() && s[i].0 == k {
            assert(s.drop_first()[i - 1] == s[i]);
        }
    }
}

/// Where the sorted insertion lands, given the first index whose key is
/// not below `k`.
pub proof fn lemma_assoc_insert_at<V>(s: Seq<(Seq<char>, V)>, k: Seq<char>, v: V, idx: int)
    requires
        sorted_keys(s),
        0 <= idx <= s.len(),
        forall|j: int| 0 <= j < idx ==> seq_lt(s[j].0, k),
        idx < s.len() ==> !seq_lt(s[idx].0, k),
    ensures
        idx < s.len() && s[idx].0 == k ==> assoc_insert(s, k, v) == s.update(idx, (k, v)),
        (idx == s.len() || s[idx].0 != k) ==> assoc_insert(s, k, v) == s.subrange(0, idx) + seq![
            (k, v),
        ] + s.subrange(idx, s.len() as int),
        sorted_keys(assoc_insert(s, k, v)),
    decreases idx,
{
    if idx == 0 {
        if s.len() == 0 {
            assert(assoc_insert(s, k, v) =~= s.subrange(0, 0) + seq![(k, v)] + s.subrange(
                0,
                s.len() as int,
            ));
        } else {
            lemma_seq_lt_trichotomy(k, s[0].0);
            if s[0].0 == k {
                assert(seq![(k, v)] + s.drop_first() =~= s.update(0, (k, v)));
            } else {
                assert(seq_lt(k, s[0].0));
                assert(seq![(k, v)] + s =~= s.subrange(0, 0) + seq![(k, v)] + s.subrange(
                    0,
                    s.len() as int,
                ));
            }
        }
        // sortedness at the head position
        let out = assoc_insert(s, k, v);
        assert forall|i: int, j: int| 0 <= i < j < out.len() implies seq_lt(out[i].0, out[j].0) by {
            if s.len() > 0 && s[0].0 == k {
                assert(out == s.update(0, (k, v)));
                if i == 0 {
                    assert(out[j] == s[j]);
                    assert(seq_lt(s[0].0, s[j].0));
                    assert(out[i].0 == k);
                } else {
                    assert(out[i] == s[i] && out[j] == s[j]);
                }
            } else if s.len() > 0 {
                assert(out == seq![(k, v)] + s);
                if i == 0 {
                    assert(out[0].0 == k);
                    assert(out[j] == s[j - 1]);
                    if j == 1 {
                        assert(seq_lt(k, s[0].0));
                    } else {
                        assert(seq_lt(s[0].0, s[j - 1].0));
                        lemma_seq_lt_trans(k, s[0].0, s[j - 1].0);
                    }
                } else {
                    assert(out[i] == s[i - 1] && out[j] == s[j - 1]);
                }
            }
        }
    } else {
        assert(seq_lt(s[0].0, k));
        assert(s[0].0 != k) by {
            lemma_seq_lt_trichotomy(s[0].0, k);
        }
        assert(!seq_lt(k, s[0].0)) by {
            lemma_seq_lt_trichotomy(s[0].0, k);
        }
        let t = s.drop_first();
        assert(sorted_keys(t)) by {
            assert forall|i: int, j: int| 0 <= i < j < t.len() implies seq_lt(t[i].0, t[j].0) by {
                assert(t[i] == s[i + 1] && t[j] == s[j + 1]);
            }
        }
        assert(forall|j: int| 0 <= j < idx - 1 ==> t[j] == s[j + 1] && seq_lt(t[j].0, k));
        if idx - 1 < t.len() {
            assert(t[idx - 1] == s[idx]);
        }
        lemma_assoc_insert_at(t, k, v, idx - 1);
        let out = assoc_insert(s, k, v);
        assert(out == seq![s[0]] + assoc_insert(t, k, v));
        if idx < s.len() && s[idx].0 == k {
            assert(out =~= s.update(idx, (k, v))) by {
                assert(assoc_insert(t, k, v) == t.update(idx - 1, (k, v)));
            }
        } else {
            assert(out =~= s.subrange(0, idx) + seq![(k, v)] + s.subrange(idx, s.len() as int))
                by {
                assert(assoc_insert(t, k, v) == t.subrange(0, idx - 1) + seq![(k, v)] + t.subrange(
                    idx - 1,
                    t.len() as int,
                ));
            }
        }
        // sortedness: out[0] is s[0], below k and below every later key of s
        assert forall|i: int, j: int| 0 <= i < j < out.len() implies seq_lt(out[i].0, out[j].0) by {
            let ins = assoc_insert(t, k, v);
            assert(sorted_keys(ins));
            if i == 0 {
                assert(out[j] == ins[j - 1]);
                if idx < s.len() && s[idx].0 == k {
                    if j - 1 == idx - 1 {
                        assert(out[j].0 == k);
                    } else {
                        assert(ins[j - 1] == t.update(idx - 1, (k, v))[j - 1]);
                    }
                } else {
                }
                lemma_ins_keys(t, k, v, out[j].0);
                // every key of ins is either k or a key of t; both are above s[0].0
                if out[j].0 == k {
                } else {
                    let m = choose|m: int| 0 <= m < t.len() && t[m].0 == out[j].0;
                    assert(seq_lt(s[0].0, s[m + 1].0));
                }
            } else {
                assert(out[i] == ins[i - 1] && out[j] == ins[j - 1]);
            }
        }
    }
}

/// Every key of an insertion result is the new key or one of the old keys.
proof fn lemma_ins_keys<V>(s: Seq<(Seq<char>, V)>, k: Seq<char>, v: V, k2: Seq<char>)
    requires
        exists|i: int| 0 <= i < assoc_insert(s, k, v).len() && assoc_insert(s, k, v)[i].0 == k2,
    ensures
        k2 == k || exists|i: int| 0 <= i < s.len() && s[i].0 == k2,
    decreases s.len(),
{
    let out = assoc_insert(s, k, v);
    let i = choose|i: int| 0 <= i < out.len() && out[i].0 == k2;
    if s.len() == 0 {
        assert(out[i] == (k, v));
    } else if seq_lt(k, s[0].0) {
        if i > 0 {
            assert(out[i] == s[i - 1]);
        }
    } else if k == s[0].0 {
        if i > 0 {
            assert(out[i] == s.drop_first()[i - 1]);
            assert(s.drop_first()[i - 1] == s[i]);
        }
    } else {
        if i == 0 {
            assert(out[0] == s[0]);
        } else {
            let ins = assoc_insert(s.drop_first(), k, v);
            assert(out[i] == ins[i - 1]);
            lemma_ins_keys(s.drop_first(), k, v, k2);
            if k2 != k {
                let m = choose|m: int|
                    0 <= m < s.drop_first().len() && s.drop_first()[m].0 == k2;
                assert(s[m + 1].0 == k2);
            }
        }
    }
}

/// Lexicographic order is transitive.
pub proof fn lemma_seq_lt_trans(a: Seq<char>, b: Seq<char>, c: Seq<char>)
    requires
        seq_lt(a, b),
        seq_lt(b, c),
    ensures
        seq_lt(a, c),
    decreases a.len() + b.len() + c.len(),
{
    if c.len() == 0 {
        assert(false);
    } else if b.len() == 0 {
        assert(false);
    } else if a.len() == 0 {
    } else {
        if a[0] == b[0] {
            if b[0] == c[0] {
                lemma_seq_lt_trans(a.drop_first(), b.drop_first(), c.drop_first());
            } else {
            }
        } else {
            if b[0] == c[0] {
            } else {
                if a[0] == c[0] {
                    assert((a[0] as u32) < (b[0] as u32));
                    assert((b[0] as u32) < (c[0] as u32));
                    assert(false);
                }
            }
        }
    }
}

/// What `assoc_insert` does to every lookup.
pub proof fn lemma_assoc_insert_get<V>(s: Seq<(Seq<char>, V)>, k: Seq<char>, v: V, k2: Seq<char>)
    requires
        sorted_keys(s),
    ensures
        k2 == k ==> assoc_get(assoc_insert(s, k, v), k2) == Some(v),
        k2 != k ==> assoc_get(assoc_insert(s, k, v), k2) == assoc_get(s, k2),
    decreases s.len(),
{
    let out = assoc_insert(s, k, v);
    if s.len() == 0 {
        assert(out == seq![(k, v)]);
        assert(out.drop_first() =~= Seq::<(Seq<char>, V)>::empty());
    } else if seq_lt(k, s[0].0) {
        assert(out == seq![(k, v)] + s);
        assert(out[0] == (k, v));
        lemma_seq_lt_trichotomy(k, s[0].0);
        if k2 == k {
        } else {
            assert(out.drop_first() =~= s);
        }
    } else if k == s[0].0 {
        assert(out == seq![(k, v)] + s.drop_first());
        assert(out[0] == (k, v));
        if k2 == k {
        } else {
            assert(out.drop_first() =~= s.drop_first());
        }
    } else {
        lemma_seq_lt_trichotomy(k, s[0].0);
        assert(seq_lt(s[0].0, k));
        assert(out == seq![s[0]] + assoc_insert(s.drop_first(), k, v));
        assert(out[0] == s[0]);
        assert(out.len() > 0);
        assert(sorted_keys(s.drop_first())) by {
            assert forall|i: int, j: int|
                0 <= i < j < s.drop_first().len() implies seq_lt(
                s.drop_first()[i].0,
                s.drop_first()[j].0,
            ) by {
                assert(s.drop_first()[i] == s[i + 1] && s.drop_first()[j] == s[j + 1]);
            }
        }
        lemma_assoc_insert_get(s.drop_first(), k, v, k2);
        assert(out.drop_first() =~= assoc_insert(s.drop_first(), k, v));
        if k2 == k {
            assert(s[0].0 != k2);
            assert(out[0].0 != k2);
            assert(assoc_get(out, k2) == assoc_get(out.drop_first(), k2));
        } else {
            if out[0].0 == k2 {
                assert(assoc_get(out, k2) == Some(out[0].1));
                assert(assoc_get(s, k2) == Some(s[0].1));
            } else {
                assert(assoc_get(out, k2) == assoc_get(out.drop_first(), k2));
                assert(assoc_get(s, k2) == assoc_get(s.drop_first(), k2));
            }
        }
    }
}

/// The view of an entry list.
pub open spec fn entries_view(s: Seq<(String, Val)>) -> Seq<(Seq<char>, ValV)> {
    s.map_values(|p: (String, Val)| (p.0@, p.1@))
}

/// An ordered mapping from field name to value.
#[derive(Debug)]
pub struct MetaMap {
    entries: Vec<(String, Val)>,
}

impl View for MetaMap {
    type V = Seq<(Seq<char>, ValV)>;

    closed spec fn view(&self) -> Seq<(Seq<char>, ValV)> {
        entries_view(self.entries@)
    }
}

impl MetaMap {
    /// The mapping's keys are strictly sorted.
    pub open spec fn wf(&self) -> bool {
        sorted_keys(self@)
    }

    /// The empty mapping.
    pub fn new() -> (r: MetaMap)
        ensures
            r@ == Seq::<(Seq<char>, ValV)>::empty(),
            r.wf(),
    {
        let r = MetaMap { entries: Vec::new() };
        proof {
            assert(r@ =~= Seq::<(Seq<char>, ValV)>::empty());
        }
        r
    }

    /// How many fields the mapping holds.
    pub fn len(&self) -> (n: usize)
        ensures
            n == self@.len(),
    {
        self.entries.len()
    }

    /// The field name at a position.
    pub fn key_at(&self, i: usize) -> (k: &String)
        requires
            i < self@.len(),
        ensures
            k@ == self@[i as int].0,
    {
        &self.entries[i].0
    }

    /// The value at a position.
    pub fn val_at(&self, i: usize) -> (v: &Val)
        requires
            i < self@.len(),
        ensures
            v@ == self@[i as int].1,
    {
        &self.entries[i].1
    }

    /// Look up the value under a field name.
    pub fn get(&self, key: &str) -> (r: Option<&Val>)
        ensures
            match r {
                Some(v) => assoc_get(self@, key@) == Some(v@),
                None => assoc_get(self@, key@) is None,
            },
    {
        let n = self.entries.len();
        let mut i: usize = 0;
        while i < n
            invariant
                n == self.entries@.len(),
                0 <= i <= n,
                forall|j: int| 0 <= j < i ==> self@[j].0 != key@,
            decreases n - i,
        {
            if str_eq(self.entries[i].0.as_str(), key) {
                proof {
                    lemma_assoc_get_scan(self@, key@, i as int);
                    assert(self@[i as int] == (self.entries@[i as int].0@, self.entries@[i as int].1@));
                }
                return Some(&self.entries[i].1);
            }
            proof {
                assert(self@[i as int] == (self.entries@[i as int].0@, self.entries@[i as int].1@));
            }
            i = i + 1;
        }
        proof {
            lemma_assoc_get_scan(self@, key@, n as int);
        }
        None
    }

    /// Insert a field, replacing any entry under the same name.
    pub fn insert(&mut self, key: String, value: Val)
        requires
            old(self).wf(),
        ensures
            final(self).wf(),
            final(self)@ == assoc_insert(old(self)@, key@, value@),
    {
        let ghost s = self@;
        let kc = str_to_chars(key.as_str());
        let n = self.entries.len();
        let mut i: usize = 0;
        loop
            invariant
                n == self.entries@.len(),
                0 <= i <= n,
                kc@ == key@,
                self@ == s,
                entries_view(self.entries@) == s,
                forall|j: int| 0 <= j < i ==> seq_lt(s[j].0, key@),
            ensures
                0 <= i <= n,
                self@ == s,
                forall|j: int| 0 <= j < i ==> seq_lt(s[j].0, key@),
                i < n ==> !seq_lt(s[i as int].0, key@),
            decreases n - i,
        {
            if i >= n {
                break ;
            }
            let ec = str_to_chars(self.entries[i].0.as_str());
            proof {
                assert(s[i as int] == (self.entries@[i as int].0@, self.entries@[i as int].1@));
            }
            if !chars_lt(&ec, &kc) {
                break ;
            }
            i = i + 1;
        }
        proof {
            lemma_assoc_insert_at(s, key@, value@, i as int);
        }
        let replace = if i < n {
            proof {
                assert(s[i as int] == (self.entries@[i as int].0@, self.entries@[i as int].1@));
            }
            str_eq(self.entries[i].0.as_str(), key.as_str())
        } else {
            false
        };
        if replace {
            self.entries.remove(i);
            self.entries.insert(i, (key, value));
            proof {
                assert(self@ =~= s.update(i as int, (key@, value@)));
            }
        } else {
            self.entries.insert(i, (key, value));
            proof {
                assert(self@ =~= s.subrange(0, i as int) + seq![(key@, value@)] + s.subrange(
                    i as int,
                    s.len() as int,
                ));
            }
        }
    }

    /// Drop every field whose value is null.
    pub fn remove_nulls(&mut self)
        requires
            old(self).wf(),
        ensures
            final(self).wf(),
            final(self)@ == drop_null_entries(old(self)@),
    {
        let ghost s = self@;
        let mut out: Vec<(String, Val)> = Vec::new();
        let n = self.entries.len();
        let mut i: usize = 0;
        proof {
            assert(s.subrange(0, 0) =~= Seq::<(Seq<char>, ValV)>::empty());
            assert(entries_view(out@) =~= drop_null_entries(s.subrange(0, 0)));
        }
        while i < n
            invariant
                n == self.entries@.len(),
                0 <= i <= n,
                entries_view(self.entries@) == s,
                entries_view(out@) == drop_null_entries(s.subrange(0, i as int)),
            decreases n - i,
        {
            let ghost prefix = s.subrange(0, i as int);
            let ghost out0 = out@;
            proof {
                assert(s[i as int] == (self.entries@[i as int].0@, self.entries@[i as int].1@));
            }
            let keep = !is_null_val(&self.entries[i].1);
            proof {
                let x = s.subrange(0, i + 1);
                assert(x.drop_last() =~= prefix);
                assert(x.last() == s[i as int]);
                if keep {
                    assert(drop_null_entries(x) == drop_null_entries(prefix).push(s[i as int]));
                } else {
                    assert(drop_null_entries(x) == drop_null_entries(prefix));
                }
            }
            if keep {
                let k = self.entries[i].0.clone();
                let v = duplicate_val(&self.entries[i].1);
                let ghost kv = (k@, v@);
                out.push((k, v));
                proof {
                    assert(kv == s[i as int]);
                    assert(entries_view(out@) =~= drop_null_entries(
                        s.subrange(0, i + 1),
                    )) by {
                        assert(out@ == out0.push((out@[out@.len() - 1].0, out@[out@.len() - 1].1)));
                        assert(entries_view(out@).len() == out@.len());
                        assert(entries_view(out0).len() == out0.len());
                        assert forall|j: int| 0 <= j < out@.len() implies entries_view(out@)[j]
                            == drop_null_entries(prefix).push(s[i as int])[j] by {
                            assert(entries_view(out@)[j] == (out@[j].0@, out@[j].1@));
                            if j < out0.len() {
                                assert(out@[j] == out0[j]);
                                assert(entries_view(out0)[j] == (out0[j].0@, out0[j].1@));
                            } else {
                                assert((out@[j].0@, out@[j].1@) == kv);
                            }
                        }
                    }
                }
            } else {
                proof {
                    assert(entries_view(out@) == drop_null_entries(s.subrange(0, i + 1)));
                }
            }
            i = i + 1;
        }
        proof {
            assert(s.subrange(0, n as int) =~= s);
        }
        self.entries = out;
        proof {
            lemma_sorted_drop_nulls(s);
        }
    }
}

/// Whether a value is the null scalar.
pub fn is_null_val(v: &Val) -> (r: bool)
    ensures
        r == (v@ == ValV::Scalar(ScalarV::Null)),
{
    match v {
        Val::Scalar(Scalar::Null) => true,
        _ => false,
    }
}

/// The entries whose values are not null, in order.
pub open spec fn drop_null_entries(s: Seq<(Seq<char>, ValV)>) -> Seq<(Seq<char>, ValV)>
    decreases s.len(),
{
    if s.len() == 0 {
        Seq::empty()
    } else if s.last().1 == ValV::Scalar(ScalarV::Null) {
        drop_null_entries(s.drop_last())
    } else {
        drop_null_entries(s.drop_last()).push(s.last())
    }
}

/// Every element of the filtered sequence occurs in the original.
proof fn lemma_drop_nulls_member(s: Seq<(Seq<char>, ValV)>, i: int)
    requires
        0 <= i < drop_null_entries(s).len(),
    ensures
        exists|m: int| 0 <= m < s.len() && s[m] == drop_null_entries(s)[i],
    decreases s.len(),
{
    if s.len() > 0 {
        let d = s.drop_last();
        if s.last().1 != ValV::Scalar(ScalarV::Null) && i == drop_null_entries(d).len() {
            assert(s[s.len() - 1] == drop_null_entries(s)[i]);
        } else {
            lemma_drop_nulls_member(d, i);
            let m = choose|m: int| 0 <= m < d.len() && d[m] == drop_null_entries(d)[i];
            assert(s[m] == drop_null_entries(s)[i]);
        }
    }
}

/// Dropping null entries keeps the keys sorted.
pub proof fn lemma_sorted_drop_nulls(s: Seq<(Seq<char>, ValV)>)
    requires
        sorted_keys(s),
    ensures
        sorted_keys(drop_null_entries(s)),
    decreases s.len(),
{
    if s.len() > 0 {
        let t = s.drop_last();
        assert(sorted_keys(t)) by {
            assert(forall|i: int| 0 <= i < t.len() ==> t[i] == s[i]);
        }
        lemma_sorted_drop_nulls(t);
        let ft = drop_null_entries(t);
        if s.last().1 != ValV::Scalar(ScalarV::Null) {
            assert(drop_null_entries(s) == ft.push(s.last()));
            assert forall|i: int, j: int|
                0 <= i < j < drop_null_entries(s).len() implies seq_lt(
                drop_null_entries(s)[i].0,
                drop_null_entries(s)[j].0,
            ) by {
                if j < ft.len() {
                } else {
                    assert(drop_null_entries(s)[j] == s.last());
                    lemma_drop_nulls_member(t, i);
                    let m = choose|m: int| 0 <= m < t.len() && t[m] == drop_null_entries(t)[i];
                    assert(seq_lt(s[m].0, s[s.len() - 1].0));
                }
            }
        }
    }
}

/// A structural copy of a value.
pub fn duplicate_val(v: &Val) -> (r: Val)
    ensures
        r@ == v@,
{
    match v {
        Val::Scalar(s) => Val::Scalar(duplicate_scalar(s)),
        Val::List(items) => {
            let mut out: Vec<Node> = Vec::new();
            let mut i: usize = 0;
            while i < items.len()
                invariant
                    0 <= i <= items@.len(),
                    out@.len() == i,
                    nodes_view(out@) == nodes_view(items@.subrange(0, i as int)),
                decreases items.len() - i,
            {
                let ghost out0 = out@;
                out.push(duplicate_node(&items[i]));
                proof {
                    assert(nodes_view(out@) =~= nodes_view(items@.subrange(0, i + 1 as int))) by {
                        assert(nodes_view(out@).len() == out@.len());
                        assert(nodes_view(items@.subrange(0, i + 1 as int)).len() == i + 1);
                        assert forall|j: int| 0 <= j < out@.len() implies nodes_view(out@)[j]
                            == nodes_view(items@.subrange(0, i + 1 as int))[j] by {
                            assert(nodes_view(out@)[j] == out@[j]@);
                            assert(nodes_view(items@.subrange(0, i + 1 as int))[j] == items@[j]@);
                            if j < i {
                                assert(out@[j] == out0[j]);
                                assert(nodes_view(out0)[j] == out0[j]@);
                                assert(nodes_view(items@.subrange(0, i as int))[j] == items@[j]@);
                            }
                        }
                    }
                }
                i = i + 1;
            }
            proof {
                assert(items@.subrange(0, items@.len() as int) =~= items@);
            }
            Val::List(out)
        },
        Val::Mapping(pairs) => {
            let mut out: Vec<(Node, Node)> = Vec::new();
            let mut i: usize = 0;
            while i < pairs.len()
                invariant
                    0 <= i <= pairs@.len(),
                    out@.len() == i,
                    node_pairs_view(out@) == node_pairs_view(pairs@.subrange(0, i as int)),
                decreases pairs.len() - i,
            {
                let ghost out0 = out@;
                let k = duplicate_node(&pairs[i].0);
                let v2 = duplicate_node(&pairs[i].1);
                let ghost kv = (k@, v2@);
                out.push((k, v2));
                proof {
                    assert(kv == (pairs@[i as int].0@, pairs@[i as int].1@));
                    assert(node_pairs_view(out@) =~= node_pairs_view(
                        pairs@.subrange(0, i + 1 as int),
                    )) by {
                        assert(node_pairs_view(out@).len() == out@.len());
                        assert(node_pairs_view(pairs@.subrange(0, i + 1 as int)).len() == i + 1);
                        assert forall|j: int| 0 <= j < out@.len() implies node_pairs_view(out@)[j]
                            == node_pairs_view(pairs@.subrange(0, i + 1 as int))[j] by {
                            assert(node_pairs_view(out@)[j] == (out@[j].0@, out@[j].1@));
                            assert(node_pairs_view(pairs@.subrange(0, i + 1 as int))[j] == (
                                pairs@[j].0@,
                                pairs@[j].1@,
                            ));
                            if j < i {
                                assert(out@[j] == out0[j]);
                                assert(node_pairs_view(out0)[j] == (out0[j].0@, out0[j].1@));
                                assert(node_pairs_view(pairs@.subrange(0, i as int))[j] == (
                                    pairs@[j].0@,
                                    pairs@[j].1@,
                                ));
                            } else {
                                assert((out@[j].0@, out@[j].1@) == kv);
                            }
                        }
                    }
                }
                i = i + 1;
            }
            proof {
                assert(pairs@.subrange(0, pairs@.len() as int) =~= pairs@);
            }
            Val::Mapping(out)
        },
        Val::Other => Val::Other,
    }
}

/// A structural copy of a scalar.
pub fn duplicate_scalar(s: &Scalar) -> (r: Scalar)
    ensures
        r@ == s@,
{
    match s {
        Scalar::Str(x) => Scalar::Str(x.clone()),
        Scalar::Num(x) => Scalar::Num(x.clone()),
        Scalar::Bool(b) => Scalar::Bool(*b),
        Scalar::Null => Scalar::Null,
    }
}

/// A structural copy of a node.
pub fn duplicate_node(n: &Node) -> (r: Node)
    ensures
        r@ == n@,
{
    match n {
        Node::Scalar(s) => Node::Scalar(duplicate_scalar(s)),
        Node::Other => Node::Other,
    }
}


/// Under sorted keys, a matching entry decides the lookup.
pub proof fn lemma_assoc_get_at<V>(s: Seq<(Seq<char>, V)>, i: int)
    requires
        sorted_keys(s),
        0 <= i < s.len(),
    ensures
        assoc_get(s, s[i].0) == Some(s[i].1),
{
    assert forall|j: int| 0 <= j < i implies s[j].0 != s[i].0 by {
        crate::text::lemma_seq_lt_trichotomy(s[j].0, s[i].0);
    }
    lemma_assoc_get_scan(s, s[i].0, i);
}

/// A successful lookup names an entry.
pub proof fn lemma_assoc_get_witness<V>(s: Seq<(Seq<char>, V)>, k: Seq<char>)
    requires
        assoc_get(s, k) is Some,
    ensures
        exists|i: int|
            0 <= i < s.len() && s[i].0 == k && #[trigger] s[i].1 == assoc_get(s, k).unwrap(),
    decreases s.len(),
{
    if s.len() > 0 {
        if s[0].0 == k {
            assert(s[0].1 == assoc_get(s, k).unwrap());
        } else {
            lemma_assoc_get_witness(s.drop_first(), k);
            let i = choose|i: int|
                0 <= i < s.drop_first().len() && s.drop_first()[i].0 == k
                    && #[trigger] s.drop_first()[i].1 == assoc_get(s.drop_first(), k).unwrap();
            assert(s[i + 1].0 == k && s[i + 1].1 == assoc_get(s, k).unwrap());
        }
    }
}

/// A non-null entry survives the pruning.
pub proof fn lemma_drop_nulls_keeps(s: Seq<(Seq<char>, ValV)>, i: int)
    requires
        0 <= i < s.len(),
        s[i].1 != ValV::Scalar(ScalarV::Null),
    ensures
        exists|j: int|
            0 <= j < drop_null_entries(s).len() && #[trigger] drop_null_entries(s)[j] == s[i],
    decreases s.len(),
{
    let d = drop_null_entries(s);
    if i == s.len() - 1 {
        assert(d == drop_null_entries(s.drop_last()).push(s.last()));
        assert(d[d.len() - 1] == s[i]);
    } else {
        assert(s.drop_last()[i] == s[i]);
        lemma_drop_nulls_keeps(s.drop_last(), i);
        let j = choose|j: int|
            0 <= j < drop_null_entries(s.drop_last()).len()
                && #[trigger] drop_null_entries(s.drop_last())[j] == s.drop_last()[i];
        if s.last().1 == ValV::Scalar(ScalarV::Null) {
            assert(d[j] == s[i]);
        } else {
            assert(d == drop_null_entries(s.drop_last()).push(s.last()));
            assert(d[j] == s[i]);
        }
    }
}

/// Pruning preserves the lookup of a non-null value (under sorted keys),
/// and a missing key stays missing.
pub proof fn lemma_drop_nulls_get(s: Seq<(Seq<char>, ValV)>, k: Seq<char>)
    requires
        sorted_keys(s),
    ensures
        match assoc_get(s, k) {
            Some(v) => if v != ValV::Scalar(ScalarV::Null) {
                assoc_get(drop_null_entries(s), k) == Some(v)
            } else {
                assoc_get(drop_null_entries(s), k) is None
            },
            None => assoc_get(drop_null_entries(s), k) is None,
        },
{
    let d = drop_null_entries(s);
    lemma_sorted_drop_nulls(s);
    match assoc_get(s, k) {
        Some(v) => {
            if v != ValV::Scalar(ScalarV::Null) {
                lemma_assoc_get_witness(s, k);
                let i = choose|i: int|
                    0 <= i < s.len() && s[i].0 == k && #[trigger] s[i].1 == v;
                lemma_drop_nulls_keeps(s, i);
                let j = choose|j: int|
                    0 <= j < d.len() && #[trigger] d[j] == s[i];
                lemma_assoc_get_at(d, j);
            } else {
                lemma_assoc_get_has(d, k);
                if assoc_has(d, k) {
                    let j = choose|j: int| 0 <= j < d.len() && d[j].0 == k;
                    lemma_drop_nulls_member_pub(s, j);
                    let i = choose|i: int| 0 <= i < s.len() && #[trigger] s[i] == d[j];
                    lemma_assoc_get_witness(s, k);
                    let i2 = choose|i2: int|
                        0 <= i2 < s.len() && s[i2].0 == k && #[trigger] s[i2].1 == v;
                    if i != i2 {
                        if i < i2 {
                            crate::text::lemma_seq_lt_trichotomy(s[i].0, s[i2].0);
                        } else {
                            crate::text::lemma_seq_lt_trichotomy(s[i2].0, s[i].0);
                        }
                    }
                    lemma_drop_nulls_nonnull(s, j);
                }
            }
        },
        None => {
            lemma_assoc_get_has(s, k);
            lemma_assoc_get_has(d, k);
            if assoc_has(d, k) {
                let j = choose|j: int| 0 <= j < d.len() && d[j].0 == k;
                lemma_drop_nulls_member_pub(s, j);
                let i = choose|i: int| 0 <= i < s.len() && s[i] == d[j];
            }
        },
    }
}

/// Every pruned entry occurs in the original.
pub proof fn lemma_drop_nulls_member_pub(s: Seq<(Seq<char>, ValV)>, j: int)
    requires
        0 <= j < drop_null_entries(s).len(),
    ensures
        exists|i: int| 0 <= i < s.len() && #[trigger] s[i] == drop_null_entries(s)[j],
    decreases s.len(),
{
    if s.len() > 0 {
        let d = s.drop_last();
        if s.last().1 != ValV::Scalar(ScalarV::Null) && j == drop_null_entries(d).len() {
            assert(s[s.len() - 1] == drop_null_entries(s)[j]);
        } else {
            lemma_drop_nulls_member_pub(d, j);
            let i = choose|i: int| 0 <= i < d.len() && #[trigger] d[i] == drop_null_entries(d)[j];
            assert(s[i] == drop_null_entries(s)[j]);
        }
    }
}


/// Every pruned entry's value is non-null.
pub proof fn lemma_drop_nulls_nonnull(s: Seq<(Seq<char>, ValV)>, j: int)
    requires
        0 <= j < drop_null_entries(s).len(),
    ensures
        drop_null_entries(s)[j].1 != ValV::Scalar(ScalarV::Null),
    decreases s.len(),
{
    if s.len() > 0 {
        let d = s.drop_last();
        if s.last().1 != ValV::Scalar(ScalarV::Null) && j == drop_null_entries(d).len() {
            assert(drop_null_entries(s)[j] == s.last());
        } else {
            lemma_drop_nulls_nonnull(d, j);
            assert(drop_null_entries(s)[j] == drop_null_entries(d)[j]);
        }
    }
}

} // verus!
