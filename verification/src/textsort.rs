//! Ordering, de-duplication and joining of text lines.
//!
//! The sorts are stated as spec-level insertion sorts, so each executable
//! function's contract pins its result exactly.

use vstd::prelude::*;
use vstd::multiset::Multiset;

verus! {

/// Lexicographic order on character sequences by Unicode scalar value (the
/// same order std's byte-wise comparison of UTF-8 strings induces).
pub open spec fn seq_char_le(a: Seq<char>, b: Seq<char>) -> bool
    decreases a.len(),
{
    if a.len() == 0 {
        true
    } else if b.len() == 0 {
        false
    } else if a[0] == b[0] {
        seq_char_le(a.drop_first(), b.drop_first())
    } else {
        (a[0] as u32) < (b[0] as u32)
    }
}

/// Compares two strings in the lexicographic order of their characters.
#[verifier::loop_isolation(false)]
pub fn str_le(a: &str, b: &str) -> (r: bool)
    ensures
        r == seq_char_le(a@, b@),
{
    let al = a.unicode_len();
    let bl = b.unicode_len();
    let mut i: usize = 0;
    proof {
        assert(a@.skip(0) =~= a@);
        assert(b@.skip(0) =~= b@);
    }
    while i < al
        invariant
            i <= al,
            i <= bl,
            seq_char_le(a@, b@) == seq_char_le(a@.skip(i as int), b@.skip(i as int)),
        decreases al - i,
    {
        if i == bl {
            proof {
                assert(b@.skip(i as int).len() == 0);
                assert(a@.skip(i as int).len() > 0);
            }
            return false;
        }
        let ca = a.get_char(i);
        let cb = b.get_char(i);
        proof {
            assert(a@.skip(i as int)[0] == a@[i as int]);
            assert(b@.skip(i as int)[0] == b@[i as int]);
        }
        if ca == cb {
            proof {
                assert(a@.skip(i as int).drop_first() =~= a@.skip(i + 1 as int));
                assert(b@.skip(i as int).drop_first() =~= b@.skip(i + 1 as int));
            }
            i = i + 1;
        } else {
            return (ca as u32) < (cb as u32);
        }
    }
    proof {
        assert(a@.skip(al as int).len() == 0);
    }
    true
}

pub open spec fn str_views(s: Seq<String>) -> Seq<Seq<char>> {
    s.map_values(|x: String| x@)
}

pub open spec fn pair_views(s: Seq<(String, String)>) -> Seq<(Seq<char>, Seq<char>)> {
    s.map_values(|p: (String, String)| (p.0@, p.1@))
}

pub open spec fn line_views(s: Seq<(i64, String)>) -> Seq<(i64, Seq<char>)> {
    s.map_values(|p: (i64, String)| (p.0, p.1@))
}

/// Where `x` lands in a run sorted ascending by key: before the first element
/// whose key is not below `x`'s.
pub open spec fn insert_asc(x: (Seq<char>, Seq<char>), s: Seq<(Seq<char>, Seq<char>)>) -> Seq<
    (Seq<char>, Seq<char>),
>
    decreases s.len(),
{
    if s.len() == 0 {
        seq![x]
    } else if seq_char_le(x.0, s[0].0) {
        seq![x] + s
    } else {
        seq![s[0]] + insert_asc(x, s.drop_first())
    }
}

/// Insertion sort, ascending by key.
pub open spec fn sort_asc(s: Seq<(Seq<char>, Seq<char>)>) -> Seq<(Seq<char>, Seq<char>)>
    decreases s.len(),
{
    if s.len() == 0 {
        Seq::empty()
    } else {
        insert_asc(s.last(), sort_asc(s.drop_last()))
    }
}

/// Where `x` lands in a run sorted descending by key: before the first element
/// whose key is not above `x`'s.
pub open spec fn insert_desc(x: (i64, Seq<char>), s: Seq<(i64, Seq<char>)>) -> Seq<(i64, Seq<char>)>
    decreases s.len(),
{
    if s.len() == 0 {
        seq![x]
    } else if x.0 >= s[0].0 {
        seq![x] + s
    } else {
        seq![s[0]] + insert_desc(x, s.drop_first())
    }
}

/// Insertion sort, descending by key.
pub open spec fn sort_desc(s: Seq<(i64, Seq<char>)>) -> Seq<(i64, Seq<char>)>
    decreases s.len(),
{
    if s.len() == 0 {
        Seq::empty()
    } else {
        insert_desc(s.last(), sort_desc(s.drop_last()))
    }
}

/// Adjacent exact duplicates removed, earlier copy kept.
pub open spec fn dedup_adj(s: Seq<Seq<char>>) -> Seq<Seq<char>>
    decreases s.len(),
{
    if s.len() <= 1 {
        s
    } else if s[s.len() - 1] == s[s.len() - 2] {
        dedup_adj(s.drop_last())
    } else {
        dedup_adj(s.drop_last()).push(s.last())
    }
}

/// The lines joined by single newlines, no trailing newline.
pub open spec fn join_nl(lines: Seq<Seq<char>>) -> Seq<char>
    decreases lines.len(),
{
    if lines.len() == 0 {
        Seq::empty()
    } else if lines.len() == 1 {
        lines[0]
    } else {
        join_nl(lines.drop_last()) + seq!['\n'] + lines.last()
    }
}

pub proof fn lemma_insert_asc_split(
    x: (Seq<char>, Seq<char>),
    s: Seq<(Seq<char>, Seq<char>)>,
    idx: int,
)
    requires
        0 <= idx <= s.len(),
        forall|j: int| 0 <= j < idx ==> !seq_char_le(x.0, (#[trigger] s[j]).0),
        idx < s.len() ==> seq_char_le(x.0, s[idx].0),
    ensures
        insert_asc(x, s) == s.subrange(0, idx) + seq![x] + s.subrange(idx, s.len() as int),
    decreases idx,
{
    if idx == 0 {
        if s.len() == 0 {
            assert(insert_asc(x, s) =~= s.subrange(0, idx) + seq![x] + s.subrange(
                idx,
                s.len() as int,
            ));
        } else {
            assert(insert_asc(x, s) =~= s.subrange(0, idx) + seq![x] + s.subrange(
                idx,
                s.len() as int,
            ));
        }
    } else {
        assert(!seq_char_le(x.0, s[0].0));
        let t = s.drop_first();
        assert forall|j: int| 0 <= j < idx - 1 implies !seq_char_le(x.0, (#[trigger] t[j]).0) by {
            assert(t[j] == s[j + 1]);
        }
        assert(idx - 1 < t.len() ==> seq_char_le(x.0, t[idx - 1].0));
        lemma_insert_asc_split(x, t, idx - 1);
        assert(insert_asc(x, s) =~= s.subrange(0, idx) + seq![x] + s.subrange(idx, s.len() as int));
    }
}

pub proof fn lemma_insert_desc_split(x: (i64, Seq<char>), s: Seq<(i64, Seq<char>)>, idx: int)
    requires
        0 <= idx <= s.len(),
        forall|j: int| 0 <= j < idx ==> !(x.0 >= (#[trigger] s[j]).0),
        idx < s.len() ==> x.0 >= s[idx].0,
    ensures
        insert_desc(x, s) == s.subrange(0, idx) + seq![x] + s.subrange(idx, s.len() as int),
    decreases idx,
{
    if idx == 0 {
        assert(insert_desc(x, s) =~= s.subrange(0, idx) + seq![x] + s.subrange(
            idx,
            s.len() as int,
        ));
    } else {
        let t = s.drop_first();
        assert forall|j: int| 0 <= j < idx - 1 implies !(x.0 >= (#[trigger] t[j]).0) by {
            assert(t[j] == s[j + 1]);
        }
        assert(idx - 1 < t.len() ==> x.0 >= t[idx - 1].0);
        lemma_insert_desc_split(x, t, idx - 1);
        assert(insert_desc(x, s) =~= s.subrange(0, idx) + seq![x] + s.subrange(
            idx,
            s.len() as int,
        ));
    }
}

/// The order is total: of any two character sequences, one is below the other.
pub proof fn lemma_seq_char_le_total(a: Seq<char>, b: Seq<char>)
    ensures
        seq_char_le(a, b) || seq_char_le(b, a),
    decreases a.len(),
{
    if a.len() > 0 && b.len() > 0 {
        if a[0] == b[0] {
            lemma_seq_char_le_total(a.drop_first(), b.drop_first());
        } else {
            assert((a[0] as u32) != (b[0] as u32)) by {
                vstd::utf8::char_u32_cast(a[0], a[0] as u32);
                vstd::utf8::char_u32_cast(b[0], b[0] as u32);
            }
        }
    }
}

/// The order is transitive.
pub proof fn lemma_seq_char_le_trans(a: Seq<char>, b: Seq<char>, c: Seq<char>)
    requires
        seq_char_le(a, b),
        seq_char_le(b, c),
    ensures
        seq_char_le(a, c),
    decreases a.len(),
{
    if a.len() > 0 && b.len() > 0 && c.len() > 0 && a[0] == b[0] && b[0] == c[0] {
        lemma_seq_char_le_trans(a.drop_first(), b.drop_first(), c.drop_first());
    }
}

pub open spec fn sorted_asc(s: Seq<(Seq<char>, Seq<char>)>) -> bool {
    forall|i: int, j: int|
        0 <= i < j < s.len() ==> seq_char_le((#[trigger] s[i]).0, (#[trigger] s[j]).0)
}

pub open spec fn sorted_desc(s: Seq<(i64, Seq<char>)>) -> bool {
    forall|i: int, j: int| 0 <= i < j < s.len() ==> (#[trigger] s[i]).0 >= (#[trigger] s[j]).0
}

/// Inserting into a run sorted ascending keeps it sorted and adds exactly the
/// new element.
pub proof fn lemma_insert_asc_correct(x: (Seq<char>, Seq<char>), s: Seq<(Seq<char>, Seq<char>)>)
    requires
        sorted_asc(s),
    ensures
        sorted_asc(insert_asc(x, s)),
        insert_asc(x, s).to_multiset() =~= s.to_multiset().insert(x),
    decreases s.len(),
{
    broadcast use vstd::seq_lib::group_to_multiset_ensures;

    if s.len() == 0 {
        let r = insert_asc(x, s);
        assert(r =~= Seq::<(Seq<char>, Seq<char>)>::empty().push(x));
        assert forall|e: (Seq<char>, Seq<char>)| s.to_multiset().count(e) == 0 by {
            assert(!s.contains(e));
        }
        assert(s.to_multiset() =~= Multiset::empty());
    } else if seq_char_le(x.0, s[0].0) {
        let r = seq![x] + s;
        assert(r =~= s.insert(0, x));
        assert forall|i: int, j: int| 0 <= i < j < r.len() implies seq_char_le(
            (#[trigger] r[i]).0,
            (#[trigger] r[j]).0,
        ) by {
            if i == 0 {
                if j == 1 {
                } else {
                    lemma_seq_char_le_trans(x.0, s[0].0, s[j - 1].0);
                }
            } else {
                assert(r[i] == s[i - 1] && r[j] == s[j - 1]);
            }
        }
    } else {
        let t = s.drop_first();
        assert(sorted_asc(t)) by {
            assert forall|i: int, j: int| 0 <= i < j < t.len() implies seq_char_le(
                (#[trigger] t[i]).0,
                (#[trigger] t[j]).0,
            ) by {
                assert(t[i] == s[i + 1] && t[j] == s[j + 1]);
            }
        }
        lemma_insert_asc_correct(x, t);
        lemma_seq_char_le_total(x.0, s[0].0);
        let sub = insert_asc(x, t);
        let r = seq![s[0]] + sub;
        assert(r =~= sub.insert(0, s[0]));
        assert(s =~= t.insert(0, s[0]));
        assert(r.to_multiset() =~= s.to_multiset().insert(x));
        assert forall|e: (Seq<char>, Seq<char>)| sub.contains(e) implies seq_char_le(
            s[0].0,
            e.0,
        ) by {
            assert(sub.to_multiset().count(e) > 0);
            if e == x {
            } else {
                assert(t.to_multiset().count(e) > 0);
                assert(t.contains(e));
                let i = choose|i: int| 0 <= i < t.len() && t[i] == e;
                assert(s[i + 1] == e);
            }
        }
        assert forall|i: int, j: int| 0 <= i < j < r.len() implies seq_char_le(
            (#[trigger] r[i]).0,
            (#[trigger] r[j]).0,
        ) by {
            if i == 0 {
                assert(sub.contains(r[j])) by {
                    assert(sub[j - 1] == r[j]);
                }
            } else {
                assert(r[i] == sub[i - 1] && r[j] == sub[j - 1]);
            }
        }
    }
}

/// The ascending sort is sorted and a permutation of its input.
pub proof fn lemma_sort_asc_correct(s: Seq<(Seq<char>, Seq<char>)>)
    ensures
        sorted_asc(sort_asc(s)),
        sort_asc(s).to_multiset() =~= s.to_multiset(),
    decreases s.len(),
{
    broadcast use vstd::seq_lib::group_to_multiset_ensures;

    if s.len() == 0 {
    } else {
        lemma_sort_asc_correct(s.drop_last());
        lemma_insert_asc_correct(s.last(), sort_asc(s.drop_last()));
        assert(s =~= s.drop_last().push(s.last()));
    }
}

/// Inserting into a run sorted descending keeps it sorted and adds exactly
/// the new element.
pub proof fn lemma_insert_desc_correct(x: (i64, Seq<char>), s: Seq<(i64, Seq<char>)>)
    requires
        sorted_desc(s),
    ensures
        sorted_desc(insert_desc(x, s)),
        insert_desc(x, s).to_multiset() =~= s.to_multiset().insert(x),
    decreases s.len(),
{
    broadcast use vstd::seq_lib::group_to_multiset_ensures;

    if s.len() == 0 {
        let r = insert_desc(x, s);
        assert(r =~= Seq::<(i64, Seq<char>)>::empty().push(x));
        assert forall|e: (i64, Seq<char>)| s.to_multiset().count(e) == 0 by {
            assert(!s.contains(e));
        }
        assert(s.to_multiset() =~= Multiset::empty());
    } else if x.0 >= s[0].0 {
        let r = seq![x] + s;
        assert(r =~= s.insert(0, x));
        assert forall|i: int, j: int| 0 <= i < j < r.len() implies (#[trigger] r[i]).0 >= (
        #[trigger] r[j]).0 by {
            if i > 0 {
                assert(r[i] == s[i - 1] && r[j] == s[j - 1]);
            } else if j > 1 {
                assert(r[j] == s[j - 1] && s[0].0 >= s[j - 1].0);
            }
        }
    } else {
        let t = s.drop_first();
        assert(sorted_desc(t)) by {
            assert forall|i: int, j: int| 0 <= i < j < t.len() implies (#[trigger] t[i]).0 >= (
            #[trigger] t[j]).0 by {
                assert(t[i] == s[i + 1] && t[j] == s[j + 1]);
            }
        }
        lemma_insert_desc_correct(x, t);
        let sub = insert_desc(x, t);
        let r = seq![s[0]] + sub;
        assert(r =~= sub.insert(0, s[0]));
        assert(s =~= t.insert(0, s[0]));
        assert(r.to_multiset() =~= s.to_multiset().insert(x));
        assert forall|e: (i64, Seq<char>)| sub.contains(e) implies s[0].0 >= e.0 by {
            assert(sub.to_multiset().count(e) > 0);
            if e == x {
            } else {
                assert(t.to_multiset().count(e) > 0);
                assert(t.contains(e));
                let i = choose|i: int| 0 <= i < t.len() && t[i] == e;
                assert(s[i + 1] == e);
            }
        }
        assert forall|i: int, j: int| 0 <= i < j < r.len() implies (#[trigger] r[i]).0 >= (
        #[trigger] r[j]).0 by {
            if i == 0 {
                assert(sub.contains(r[j])) by {
                    assert(sub[j - 1] == r[j]);
                }
            } else {
                assert(r[i] == sub[i - 1] && r[j] == sub[j - 1]);
            }
        }
    }
}

/// The descending sort is sorted and a permutation of its input.
pub proof fn lemma_sort_desc_correct(s: Seq<(i64, Seq<char>)>)
    ensures
        sorted_desc(sort_desc(s)),
        sort_desc(s).to_multiset() =~= s.to_multiset(),
    decreases s.len(),
{
    broadcast use vstd::seq_lib::group_to_multiset_ensures;

    if s.len() == 0 {
    } else {
        lemma_sort_desc_correct(s.drop_last());
        lemma_insert_desc_correct(s.last(), sort_desc(s.drop_last()));
        assert(s =~= s.drop_last().push(s.last()));
    }
}

/// Inserts `x` into a run sorted ascending by key, as `insert_asc` says.
#[verifier::loop_isolation(false)]
pub fn insert_pair_asc(v: &mut Vec<(String, String)>, x: (String, String))
    ensures
        pair_views(final(v)@) == insert_asc((x.0@, x.1@), pair_views(old(v)@)),
{
    let n = v.len();
    let mut idx: usize = 0;
    while idx < n && !str_le(x.0.as_str(), v[idx].0.as_str())
        invariant
            idx <= n,
            n == v@.len(),
            *v == *old(v),
            forall|j: int| 0 <= j < idx ==> !seq_char_le(x.0@, (#[trigger] pair_views(v@)[j]).0),
        decreases n - idx,
    {
        proof {
            assert(pair_views(v@)[idx as int].0 == v@[idx as int].0@);
        }
        idx = idx + 1;
    }
    proof {
        assert(idx < n ==> seq_char_le(x.0@, pair_views(v@)[idx as int].0));
        lemma_insert_asc_split((x.0@, x.1@), pair_views(v@), idx as int);
    }
    let ghost pre = v@;
    v.insert(idx, x);
    proof {
        assert(v@ =~= pre.insert(idx as int, x));
        assert(pair_views(v@) =~= pair_views(pre).subrange(0, idx as int) + seq![(x.0@, x.1@)]
            + pair_views(pre).subrange(idx as int, pre.len() as int));
    }
}

/// Sorts key/name pairs ascending by key, as `sort_asc` says.
#[verifier::loop_isolation(false)]
pub fn sort_pairs_asc(v: Vec<(String, String)>) -> (r: Vec<(String, String)>)
    ensures
        pair_views(r@) == sort_asc(pair_views(v@)),
{
    let mut out: Vec<(String, String)> = Vec::new();
    let n = v.len();
    let mut i: usize = 0;
    proof {
        assert(pair_views(out@) =~= sort_asc(pair_views(v@.subrange(0, 0))));
    }
    while i < n
        invariant
            i <= n,
            n == v@.len(),
            pair_views(out@) == sort_asc(pair_views(v@.subrange(0, i as int))),
        decreases n - i,
    {
        let p = &v[i];
        let x = (p.0.clone(), p.1.clone());
        insert_pair_asc(&mut out, x);
        proof {
            let cur = v@.subrange(0, i + 1 as int);
            assert(cur.drop_last() =~= v@.subrange(0, i as int));
            assert(pair_views(cur).drop_last() =~= pair_views(cur.drop_last()));
            assert(pair_views(cur).last() == (v@[i as int].0@, v@[i as int].1@));
        }
        i = i + 1;
    }
    proof {
        assert(v@.subrange(0, n as int) =~= v@);
    }
    out
}

/// Inserts `x` into a run sorted descending by key, as `insert_desc` says.
#[verifier::loop_isolation(false)]
pub fn insert_line_desc(v: &mut Vec<(i64, String)>, x: (i64, String))
    ensures
        line_views(final(v)@) == insert_desc((x.0, x.1@), line_views(old(v)@)),
{
    let n = v.len();
    let mut idx: usize = 0;
    while idx < n && x.0 < v[idx].0
        invariant
            idx <= n,
            n == v@.len(),
            *v == *old(v),
            forall|j: int| 0 <= j < idx ==> !(x.0 >= (#[trigger] line_views(v@)[j]).0),
        decreases n - idx,
    {
        proof {
            assert(line_views(v@)[idx as int].0 == v@[idx as int].0);
        }
        idx = idx + 1;
    }
    proof {
        assert(idx < n ==> x.0 >= line_views(v@)[idx as int].0);
        lemma_insert_desc_split((x.0, x.1@), line_views(v@), idx as int);
    }
    let ghost pre = v@;
    v.insert(idx, x);
    proof {
        assert(v@ =~= pre.insert(idx as int, x));
        assert(line_views(v@) =~= line_views(pre).subrange(0, idx as int) + seq![(x.0, x.1@)]
            + line_views(pre).subrange(idx as int, pre.len() as int));
    }
}

/// Sorts keyed lines descending by key, as `sort_desc` says.
#[verifier::loop_isolation(false)]
pub fn sort_lines_desc(mut v: Vec<(i64, String)>) -> (r: Vec<(i64, String)>)
    ensures
        line_views(r@) == sort_desc(line_views(v@)),
{
    let mut out: Vec<(i64, String)> = Vec::new();
    let n = v.len();
    let mut i: usize = 0;
    proof {
        assert(line_views(out@) =~= sort_desc(line_views(v@.subrange(0, 0))));
    }
    while i < n
        invariant
            i <= n,
            n == v@.len(),
            line_views(out@) == sort_desc(line_views(v@.subrange(0, i as int))),
        decreases n - i,
    {
        let p = &v[i];
        let x = (p.0, p.1.clone());
        insert_line_desc(&mut out, x);
        proof {
            let cur = v@.subrange(0, i + 1 as int);
            assert(cur.drop_last() =~= v@.subrange(0, i as int));
            assert(line_views(cur).drop_last() =~= line_views(cur.drop_last()));
            assert(line_views(cur).last() == (v@[i as int].0, v@[i as int].1@));
        }
        i = i + 1;
    }
    proof {
        assert(v@.subrange(0, n as int) =~= v@);
    }
    out
}

/// Drops adjacent exact duplicates, as `dedup_adj` says.
#[verifier::loop_isolation(false)]
pub fn dedup_strings(v: &Vec<String>) -> (r: Vec<String>)
    ensures
        str_views(r@) == dedup_adj(str_views(v@)),
{
    let mut out: Vec<String> = Vec::new();
    let n = v.len();
    let mut i: usize = 0;
    proof {
        assert(str_views(out@) =~= dedup_adj(str_views(v@.subrange(0, 0))));
    }
    while i < n
        invariant
            i <= n,
            n == v@.len(),
            str_views(out@) == dedup_adj(str_views(v@.subrange(0, i as int))),
        decreases n - i,
    {
        let keep: bool = if i == 0 {
            true
        } else {
            !v[i].eq(&v[i - 1])
        };
        proof {
            let cur = v@.subrange(0, i + 1 as int);
            assert(cur.drop_last() =~= v@.subrange(0, i as int));
            assert(str_views(cur).drop_last() =~= str_views(cur.drop_last()));
            assert(str_views(cur).last() == v@[i as int]@);
            if i > 0 {
                assert(str_views(cur)[i as int - 1] == v@[i as int - 1]@);
            }
        }
        if keep {
            out.push(v[i].clone());
            proof {
                assert(str_views(out@) =~= dedup_adj(str_views(v@.subrange(0, i as int))).push(
                    v@[i as int]@,
                ));
            }
        }
        i = i + 1;
    }
    proof {
        assert(v@.subrange(0, n as int) =~= v@);
    }
    out
}

/// Appends the lines joined by newlines, as `join_nl` says.
#[verifier::loop_isolation(false)]
pub fn append_joined(out: &mut String, v: &Vec<String>)
    ensures
        final(out)@ == old(out)@ + join_nl(str_views(v@)),
{
    let n = v.len();
    let mut i: usize = 0;
    proof {
        assert(out@ =~= old(out)@ + join_nl(str_views(v@.subrange(0, 0))));
    }
    while i < n
        invariant
            i <= n,
            n == v@.len(),
            out@ == old(out)@ + join_nl(str_views(v@.subrange(0, i as int))),
        decreases n - i,
    {
        if i > 0 {
            proof {
                reveal_strlit("\n");
            }
            out.append("\n");
        }
        out.append(v[i].as_str());
        proof {
            let cur = v@.subrange(0, i + 1 as int);
            assert(cur.drop_last() =~= v@.subrange(0, i as int));
            assert(str_views(cur).drop_last() =~= str_views(cur.drop_last()));
            assert(str_views(cur).last() == v@[i as int]@);
            assert(out@ =~= old(out)@ + join_nl(str_views(cur)));
        }
        i = i + 1;
    }
    proof {
        assert(v@.subrange(0, n as int) =~= v@);
    }
}

} // verus!
