//! The order in which the files of a module folder are taken for its
//! checksum: paths compared as `Path` compares them on Unix, component by
//! component. For paths written with `/` between components, this is the
//! byte order in which `/` comes before every other byte.

use vstd::prelude::*;

verus! {

/// The place of a byte in the path order: `/` first, then the other bytes
/// in their usual order.
pub open spec fn rank(b: u8) -> nat {
    if b == 47 {
        0
    } else {
        b as nat + 1
    }
}

/// `a` comes before `b` in the path order.
pub open spec fn path_lt(a: Seq<u8>, b: Seq<u8>) -> bool
    decreases a.len(),
{
    if a.len() == 0 {
        b.len() > 0
    } else if b.len() == 0 {
        false
    } else if a[0] == b[0] {
        path_lt(a.drop_first(), b.drop_first())
    } else {
        rank(a[0]) < rank(b[0])
    }
}

/// No path comes before itself.
pub proof fn lemma_path_lt_irreflexive(a: Seq<u8>)
    ensures
        !path_lt(a, a),
    decreases a.len(),
{
    if a.len() > 0 {
        lemma_path_lt_irreflexive(a.drop_first());
    }
}

/// Of two paths, at most one comes before the other.
pub proof fn lemma_path_lt_asymmetric(a: Seq<u8>, b: Seq<u8>)
    ensures
        path_lt(a, b) ==> !path_lt(b, a),
    decreases a.len(),
{
    if a.len() > 0 && b.len() > 0 && a[0] == b[0] {
        lemma_path_lt_asymmetric(a.drop_first(), b.drop_first());
    }
}

/// The path order is transitive.
pub proof fn lemma_path_lt_transitive(a: Seq<u8>, b: Seq<u8>, c: Seq<u8>)
    requires
        path_lt(a, b),
        path_lt(b, c),
    ensures
        path_lt(a, c),
    decreases a.len(),
{
    if a.len() > 0 && b.len() > 0 && c.len() > 0 && a[0] == b[0] && b[0] == c[0] {
        lemma_path_lt_transitive(a.drop_first(), b.drop_first(), c.drop_first());
    }
}

/// Of two different paths, one comes before the other.
pub proof fn lemma_path_lt_total(a: Seq<u8>, b: Seq<u8>)
    requires
        a != b,
    ensures
        path_lt(a, b) || path_lt(b, a),
    decreases a.len(),
{
    if a.len() > 0 && b.len() > 0 && a[0] == b[0] {
        assert(a =~= seq![a[0]] + a.drop_first());
        assert(b =~= seq![b[0]] + b.drop_first());
        lemma_path_lt_total(a.drop_first(), b.drop_first());
    } else if a.len() == 0 && b.len() == 0 {
        assert(a =~= b);
    }
}

/// Whether `a` comes before `b` in the path order.
pub fn path_less(a: &Vec<u8>, b: &Vec<u8>) -> (r: bool)
    ensures
        r == path_lt(a@, b@),
{
    let mut i: usize = 0;
    assert(a@.skip(0) =~= a@);
    assert(b@.skip(0) =~= b@);
    while i < a.len() && i < b.len()
        invariant
            i <= a@.len(),
            i <= b@.len(),
            path_lt(a@.skip(i as int), b@.skip(i as int)) == path_lt(a@, b@),
        decreases a.len() - i,
    {
        let x = a[i];
        let y = b[i];
        assert(a@.skip(i as int)[0] == x && b@.skip(i as int)[0] == y);
        if x != y {
            return if x == 47 {
                true
            } else if y == 47 {
                false
            } else {
                x < y
            };
        }
        assert(a@.skip(i as int).drop_first() =~= a@.skip(i + 1));
        assert(b@.skip(i as int).drop_first() =~= b@.skip(i + 1));
        i = i + 1;
    }
    i == a.len() && i < b.len()
}

/// The views of file entries: each path and its contents.
pub open spec fn entry_views(s: Seq<(Vec<u8>, Vec<u8>)>) -> Seq<(Seq<u8>, Seq<u8>)> {
    s.map_values(|e: (Vec<u8>, Vec<u8>)| (e.0@, e.1@))
}

/// No two entries have the same path.
pub open spec fn distinct_paths(s: Seq<(Seq<u8>, Seq<u8>)>) -> bool {
    forall|i: int, j: int| 0 <= i < j < s.len() ==> #[trigger] s[i].0 != #[trigger] s[j].0
}

/// The position of the first entry whose path comes first.
pub open spec fn min_index(s: Seq<(Seq<u8>, Seq<u8>)>) -> int
    decreases s.len(),
{
    if s.len() <= 1 {
        0
    } else {
        let m = min_index(s.drop_last());
        if path_lt(s.last().0, s[m].0) {
            s.len() - 1
        } else {
            m
        }
    }
}

/// The entries in path order: the first one whose path comes first, then
/// the others in path order.
pub open spec fn sort_spec(s: Seq<(Seq<u8>, Seq<u8>)>) -> Seq<(Seq<u8>, Seq<u8>)>
    decreases s.len(),
{
    if s.len() == 0 {
        s
    } else {
        let m = min_index(s);
        proof {
            lemma_min_index(s);
        }
        seq![s[m]] + sort_spec(s.remove(m))
    }
}

/// The entry at `min_index` has a path that no other path comes before.
pub proof fn lemma_min_index(s: Seq<(Seq<u8>, Seq<u8>)>)
    requires
        s.len() > 0,
    ensures
        0 <= min_index(s) < s.len(),
        forall|i: int| 0 <= i < s.len() ==> !path_lt(#[trigger] s[i].0, s[min_index(s)].0),
    decreases s.len(),
{
    if s.len() == 1 {
        lemma_path_lt_irreflexive(s[0].0);
    } else {
        let t = s.drop_last();
        lemma_min_index(t);
        let m = min_index(t);
        assert(s[m] == t[m]);
        if path_lt(s.last().0, s[m].0) {
            assert forall|i: int| 0 <= i < s.len() implies !path_lt(
                #[trigger] s[i].0,
                s[min_index(s)].0,
            ) by {
                if i == s.len() - 1 {
                    lemma_path_lt_irreflexive(s.last().0);
                } else {
                    assert(s[i] == t[i]);
                    if path_lt(s[i].0, s.last().0) {
                        lemma_path_lt_transitive(s[i].0, s.last().0, s[m].0);
                    }
                }
            }
        } else {
            assert forall|i: int| 0 <= i < s.len() implies !path_lt(
                #[trigger] s[i].0,
                s[min_index(s)].0,
            ) by {
                if i < s.len() - 1 {
                    assert(s[i] == t[i]);
                }
            }
        }
    }
}

/// Removing an entry keeps the paths distinct, and leaves the other entries.
proof fn lemma_remove_distinct(s: Seq<(Seq<u8>, Seq<u8>)>, k: int)
    requires
        distinct_paths(s),
        0 <= k < s.len(),
    ensures
        distinct_paths(s.remove(k)),
        forall|x: (Seq<u8>, Seq<u8>)| #[trigger] s.remove(k).contains(x) <==> (s.contains(x) && x != s[k]),
{
    let r = s.remove(k);
    assert forall|i: int, j: int| 0 <= i < j < r.len() implies #[trigger] r[i].0 != #[trigger] r[j].0 by {
        let i2 = if i < k { i } else { i + 1 };
        let j2 = if j < k { j } else { j + 1 };
        assert(r[i] == s[i2] && r[j] == s[j2]);
    }
    assert forall|x: (Seq<u8>, Seq<u8>)| #[trigger] r.contains(x) <==> (s.contains(x) && x != s[k]) by {
        if r.contains(x) {
            let i = choose|i: int| 0 <= i < r.len() && r[i] == x;
            let i2 = if i < k { i } else { i + 1 };
            assert(s[i2] == x);
            assert(i2 != k);
            if i2 < k {
                assert(s[i2].0 != s[k].0);
            } else {
                assert(s[k].0 != s[i2].0);
            }
        }
        if s.contains(x) && x != s[k] {
            let i = choose|i: int| 0 <= i < s.len() && s[i] == x;
            assert(i != k);
            let i2 = if i < k { i } else { i - 1 };
            assert(r[i2] == x);
        }
    }
}

/// Two listings of the same files with distinct paths, in any order, come
/// out the same once put in path order.
pub proof fn lemma_sort_unique(a: Seq<(Seq<u8>, Seq<u8>)>, b: Seq<(Seq<u8>, Seq<u8>)>)
    requires
        a.len() == b.len(),
        distinct_paths(a),
        distinct_paths(b),
        forall|x: (Seq<u8>, Seq<u8>)| #[trigger] a.contains(x) <==> b.contains(x),
    ensures
        sort_spec(a) == sort_spec(b),
    decreases a.len(),
{
    if a.len() > 0 {
        lemma_min_index(a);
        lemma_min_index(b);
        let (ma, mb) = (min_index(a), min_index(b));
        assert(a.contains(a[ma]));
        assert(b.contains(a[ma]));
        assert(b.contains(b[mb]));
        assert(a.contains(b[mb]));
        let k = choose|k: int| 0 <= k < b.len() && b[k] == a[ma];
        let l = choose|l: int| 0 <= l < a.len() && a[l] == b[mb];
        if a[ma] != b[mb] {
            assert(k != mb);
            assert(l != ma);
            assert(!path_lt(b[k].0, b[mb].0));
            assert(!path_lt(a[l].0, a[ma].0));
            if k < mb {
                assert(b[k].0 != b[mb].0);
            } else {
                assert(b[mb].0 != b[k].0);
            }
            lemma_path_lt_total(a[ma].0, b[mb].0);
        }
        lemma_remove_distinct(a, ma);
        lemma_remove_distinct(b, mb);
        lemma_sort_unique(a.remove(ma), b.remove(mb));
    }
}

/// The entries put in path order.
pub fn sort_entries(entries: &Vec<(Vec<u8>, Vec<u8>)>) -> (r: Vec<(Vec<u8>, Vec<u8>)>)
    ensures
        entry_views(r@) == sort_spec(entry_views(entries@)),
{
    let mut rest: Vec<(Vec<u8>, Vec<u8>)> = Vec::new();
    let mut i: usize = 0;
    while i < entries.len()
        invariant
            i <= entries@.len(),
            entry_views(rest@) == entry_views(entries@.take(i as int)),
        decreases entries.len() - i,
    {
        let e = (entries[i].0.clone(), entries[i].1.clone());
        assert(e.0@ == entries@[i as int].0@ && e.1@ == entries@[i as int].1@);
        let ghost prev = rest@;
        rest.push(e);
        assert(entries@.take(i + 1) =~= entries@.take(i as int).push(entries@[i as int]));
        assert(rest@ =~= prev.push(e));
        assert(entry_views(rest@) =~= entry_views(prev).push((e.0@, e.1@)));
        assert(entry_views(entries@.take(i + 1)) =~= entry_views(entries@.take(i as int)).push(
            (entries@[i as int].0@, entries@[i as int].1@),
        ));
        assert(entry_views(rest@) =~= entry_views(entries@.take(i + 1)));
        i = i + 1;
    }
    assert(entries@.take(i as int) =~= entries@);
    let ghost target = sort_spec(entry_views(entries@));
    let mut out: Vec<(Vec<u8>, Vec<u8>)> = Vec::new();
    while rest.len() > 0
        invariant
            entry_views(out@) + sort_spec(entry_views(rest@)) == target,
        decreases rest.len(),
    {
        let ghost v = entry_views(rest@);
        let mut m: usize = 0;
        let mut j: usize = 1;
        while j < rest.len()
            invariant
                v == entry_views(rest@),
                1 <= j <= rest@.len(),
                m == min_index(v.take(j as int)),
                m < j,
            decreases rest.len() - j,
        {
            let ghost t = v.take(j + 1);
            assert(t.drop_last() =~= v.take(j as int));
            assert(t.last() == v[j as int]);
            assert(t[m as int] == v[m as int]);
            assert(v.take(j as int)[m as int] == v[m as int]);
            if path_less(&rest[j].0, &rest[m].0) {
                m = j;
            }
            j = j + 1;
        }
        assert(v.take(j as int) =~= v);
        let ghost before = out@;
        let e = rest.remove(m);
        assert(entry_views(rest@) =~= v.remove(m as int));
        out.push(e);
        assert(entry_views(out@) =~= entry_views(before) + seq![v[m as int]]);
        assert(entry_views(out@) + sort_spec(entry_views(rest@)) =~= entry_views(before) + sort_spec(v));
    }
    assert(sort_spec(entry_views(rest@)) =~= Seq::<(Seq<u8>, Seq<u8>)>::empty());
    assert(entry_views(out@) =~= target);
    out
}

} // verus!
