//! The order of `String`s: lexicographic by character code point, which is
//! the byte order of their UTF-8 encodings.

use vstd::prelude::*;
use vstd::string::StringExecFns;

verus! {

/// `a` comes strictly before `b`.
pub open spec fn str_lt(a: Seq<char>, b: Seq<char>) -> bool
    decreases a.len(),
{
    if a.len() == 0 {
        b.len() > 0
    } else if b.len() == 0 {
        false
    } else if a[0] != b[0] {
        (a[0] as u32) < (b[0] as u32)
    } else {
        str_lt(a.drop_first(), b.drop_first())
    }
}

/// No string comes before itself.
pub proof fn lemma_lt_irreflexive(a: Seq<char>)
    ensures
        !str_lt(a, a),
    decreases a.len(),
{
    if a.len() > 0 {
        lemma_lt_irreflexive(a.drop_first());
    }
}

/// The order is transitive.
pub proof fn lemma_lt_transitive(a: Seq<char>, b: Seq<char>, c: Seq<char>)
    requires
        str_lt(a, b),
        str_lt(b, c),
    ensures
        str_lt(a, c),
    decreases a.len(),
{
    if a.len() > 0 && b.len() > 0 && c.len() > 0 && a[0] == b[0] && b[0] == c[0] {
        lemma_lt_transitive(a.drop_first(), b.drop_first(), c.drop_first());
    }
}

/// Any two strings are equal or ordered one way.
pub proof fn lemma_lt_total(a: Seq<char>, b: Seq<char>)
    ensures
        a == b || str_lt(a, b) || str_lt(b, a),
    decreases a.len(),
{
    if a.len() > 0 && b.len() > 0 && a[0] == b[0] {
        lemma_lt_total(a.drop_first(), b.drop_first());
        if a.drop_first() == b.drop_first() {
            assert(a =~= seq![a[0]] + a.drop_first());
            assert(b =~= seq![b[0]] + b.drop_first());
        }
    } else if a.len() == 0 && b.len() == 0 {
        assert(a =~= b);
    } else if a.len() > 0 && b.len() > 0 {
        let (x, y) = (a[0], b[0]);
        if (x as u32) == (y as u32) {
            vstd::utf8::char_u32_cast(x, x as u32);
            vstd::utf8::char_u32_cast(y, y as u32);
            assert(false);
        }
        assert(str_lt(a, b) || str_lt(b, a));
    }
}

/// One step of the comparison: equal heads leave the order to the tails.
proof fn lemma_lt_step(a: Seq<char>, b: Seq<char>, i: int)
    requires
        0 <= i < a.len(),
        i < b.len(),
        a[i] == b[i],
    ensures
        str_lt(a.skip(i), b.skip(i)) == str_lt(a.skip(i + 1), b.skip(i + 1)),
{
    assert(a.skip(i).drop_first() =~= a.skip(i + 1));
    assert(b.skip(i).drop_first() =~= b.skip(i + 1));
}

/// Does `a` come strictly before `b` (`a < b` on `str`)?
pub fn str_less(a: &str, b: &str) -> (r: bool)
    ensures
        r == str_lt(a@, b@),
{
    let n = a.unicode_len();
    let m = b.unicode_len();
    let mut i: usize = 0;
    assert(a@.skip(0) =~= a@);
    assert(b@.skip(0) =~= b@);
    while i < n && i < m
        invariant
            n == a@.len(),
            m == b@.len(),
            i <= n,
            i <= m,
            str_lt(a@, b@) == str_lt(a@.skip(i as int), b@.skip(i as int)),
        decreases n - i,
    {
        let x = a.get_char(i);
        let y = b.get_char(i);
        if x != y {
            proof {
                assert(a@.skip(i as int)[0] == x);
                assert(b@.skip(i as int)[0] == y);
            }
            return (x as u32) < (y as u32);
        }
        proof {
            lemma_lt_step(a@, b@, i as int);
        }
        i = i + 1;
    }
    i < m
}

// ---------------------------------------------------------------------------
// Sorting lists of strings
// ---------------------------------------------------------------------------

/// `x` placed into `t` after every element that does not come after it.
pub open spec fn insert_str(t: Seq<Seq<char>>, x: Seq<char>) -> Seq<Seq<char>>
    decreases t.len(),
{
    if t.len() == 0 {
        seq![x]
    } else if str_lt(x, t.last()) {
        insert_str(t.drop_last(), x).push(t.last())
    } else {
        t.push(x)
    }
}

/// The strings of `s` in ascending order (`slice::sort`).
pub open spec fn sort_strs(s: Seq<Seq<char>>) -> Seq<Seq<char>>
    decreases s.len(),
{
    if s.len() == 0 {
        s
    } else {
        insert_str(sort_strs(s.drop_last()), s.last())
    }
}

/// No element comes after a later one.
pub open spec fn ascending(s: Seq<Seq<char>>) -> bool {
    forall|i: int, j: int| 0 <= i < j < s.len() ==> !str_lt(#[trigger] s[j], #[trigger] s[i])
}

/// Each element comes strictly before every later one.
pub open spec fn strictly_ascending(s: Seq<Seq<char>>) -> bool {
    forall|i: int, j: int| 0 <= i < j < s.len() ==> str_lt(#[trigger] s[i], #[trigger] s[j])
}

/// The views of a list of strings.
pub open spec fn str_views(v: Seq<String>) -> Seq<Seq<char>> {
    v.map_values(|s: String| s@)
}

proof fn lemma_insert_str(t: Seq<Seq<char>>, x: Seq<char>)
    requires
        ascending(t),
    ensures
        ascending(insert_str(t, x)),
        insert_str(t, x).to_multiset() =~= t.to_multiset().insert(x),
    decreases t.len(),
{
    broadcast use vstd::seq_lib::group_to_multiset_ensures;

    if t.len() == 0 {
        assert(seq![x] =~= Seq::<Seq<char>>::empty().push(x));
    } else if str_lt(x, t.last()) {
        let u = t.drop_last();
        assert(ascending(u)) by {
            assert forall|i: int, j: int| 0 <= i < j < u.len() implies !str_lt(u[j], u[i]) by {
                assert(u[i] == t[i] && u[j] == t[j]);
            }
        }
        lemma_insert_str(u, x);
        let w = insert_str(u, x);
        assert(t =~= u.push(t.last()));
        assert forall|i: int, j: int| 0 <= i < j < w.push(t.last()).len() implies !str_lt(
            w.push(t.last())[j],
            w.push(t.last())[i],
        ) by {
            if j == w.len() {
                let e = w[i];
                assert(w.to_multiset().count(e) > 0);
                if e == x {
                    lemma_lt_irreflexive(t.last());
                    if str_lt(t.last(), e) {
                        lemma_lt_transitive(t.last(), x, t.last());
                    }
                } else {
                    assert(u.to_multiset().count(e) > 0);
                    lemma_multiset_member(u, e);
                    let k = choose|k: int| 0 <= k < u.len() && u[k] == e;
                    assert(t[k] == e);
                    assert(!str_lt(t[t.len() - 1], t[k]));
                }
            }
        }
    } else {
        assert forall|i: int, j: int| 0 <= i < j < t.push(x).len() implies !str_lt(
            t.push(x)[j],
            t.push(x)[i],
        ) by {
            if j == t.len() {
                if str_lt(x, t[i]) {
                    if i < t.len() - 1 {
                        assert(!str_lt(t[t.len() - 1], t[i]));
                        lemma_lt_total(t[i], t.last());
                        if str_lt(t[i], t.last()) {
                            lemma_lt_transitive(x, t[i], t.last());
                        }
                    }
                }
            }
        }
    }
}

proof fn lemma_multiset_member(s: Seq<Seq<char>>, e: Seq<char>)
    requires
        s.to_multiset().count(e) > 0,
    ensures
        exists|k: int| 0 <= k < s.len() && s[k] == e,
{
    broadcast use vstd::seq_lib::group_to_multiset_ensures;

    assert(s.contains(e));
}

/// Sorting gives an ascending rearrangement of the same strings.
pub proof fn lemma_sort_strs(s: Seq<Seq<char>>)
    ensures
        ascending(sort_strs(s)),
        sort_strs(s).to_multiset() =~= s.to_multiset(),
    decreases s.len(),
{
    broadcast use vstd::seq_lib::group_to_multiset_ensures;

    if s.len() > 0 {
        lemma_sort_strs(s.drop_last());
        lemma_insert_str(sort_strs(s.drop_last()), s.last());
        assert(s =~= s.drop_last().push(s.last()));
    }
}

/// Two ascending lists with the same strings, counted with multiplicity,
/// are equal.
pub proof fn lemma_ascending_unique(x: Seq<Seq<char>>, y: Seq<Seq<char>>)
    requires
        ascending(x),
        ascending(y),
        x.to_multiset() =~= y.to_multiset(),
    ensures
        x == y,
    decreases x.len(),
{
    broadcast use vstd::seq_lib::group_to_multiset_ensures;

    if x.len() == 0 {
        assert(y.to_multiset().len() == 0);
        assert(x =~= y);
    } else {
        assert(x.to_multiset().len() == y.to_multiset().len());
        assert(y.len() == x.len());
        assert(y.contains(y[0]));
        assert(x.contains(x[0]));
        assert(y.to_multiset().count(y[0]) > 0);
        assert(x.to_multiset().count(x[0]) > 0);
        assert(x.contains(y[0]));
        assert(y.contains(x[0]));
        let k = choose|k: int| 0 <= k < x.len() && x[k] == y[0];
        let m = choose|m: int| 0 <= m < y.len() && y[m] == x[0];
        if k > 0 {
            assert(!str_lt(x[k], x[0]));
        }
        if m > 0 {
            assert(!str_lt(y[m], y[0]));
        }
        lemma_lt_total(x[0], y[0]);
        lemma_lt_irreflexive(x[0]);
        assert(x[0] == y[0]);
        let x1 = x.remove(0);
        let y1 = y.remove(0);
        assert(x1 =~= x.drop_first());
        assert(y1 =~= y.drop_first());
        assert(ascending(x1)) by {
            assert forall|i: int, j: int| 0 <= i < j < x1.len() implies !str_lt(x1[j], x1[i]) by {
                assert(x1[i] == x[i + 1] && x1[j] == x[j + 1]);
            }
        }
        assert(ascending(y1)) by {
            assert forall|i: int, j: int| 0 <= i < j < y1.len() implies !str_lt(y1[j], y1[i]) by {
                assert(y1[i] == y[i + 1] && y1[j] == y[j + 1]);
            }
        }
        lemma_ascending_unique(x1, y1);
        assert(x =~= seq![x[0]] + x1);
        assert(y =~= seq![y[0]] + y1);
    }
}

/// Sorting depends only on which strings there are, not on their order.
pub proof fn lemma_sort_strs_permutation(a: Seq<Seq<char>>, b: Seq<Seq<char>>)
    requires
        a.to_multiset() =~= b.to_multiset(),
    ensures
        sort_strs(a) == sort_strs(b),
{
    lemma_sort_strs(a);
    lemma_sort_strs(b);
    lemma_ascending_unique(sort_strs(a), sort_strs(b));
}

/// Inserts `x` into the ascending list `out`, after its equals.
pub fn insert_sorted(out: &mut Vec<String>, x: String)
    ensures
        str_views(final(out)@) == insert_str(str_views(old(out)@), x@),
{
    let ghost t = str_views(out@);
    let mut p = out.len();
    assert(t.take(p as int) =~= t);
    assert(t.skip(p as int) =~= Seq::<Seq<char>>::empty());
    assert(insert_str(t, x@) =~= insert_str(t.take(p as int), x@) + t.skip(p as int));
    while p > 0 && str_less(x.as_str(), out[p - 1].as_str())
        invariant
            p <= out.len(),
            t == str_views(out@),
            insert_str(t, x@) == insert_str(t.take(p as int), x@) + t.skip(p as int),
        decreases p,
    {
        proof {
            let u = t.take(p as int);
            assert(u.last() == t[p - 1]);
            assert(u.drop_last() =~= t.take(p - 1));
            assert(t.skip(p - 1) =~= seq![t[p - 1]] + t.skip(p as int));
            assert(insert_str(u, x@) == insert_str(t.take(p - 1), x@).push(t[p - 1]));
            assert(insert_str(t.take(p - 1), x@).push(t[p - 1]) + t.skip(p as int) =~= insert_str(
                t.take(p - 1),
                x@,
            ) + t.skip(p - 1));
        }
        p = p - 1;
    }
    proof {
        let u = t.take(p as int);
        if p > 0 {
            assert(u.last() == t[p - 1]);
            assert(insert_str(u, x@) == u.push(x@));
        } else {
            assert(insert_str(u, x@) == seq![x@]);
        }
    }
    out.insert(p, x);
    assert(str_views(out@) =~= t.take(p as int).push(x@) + t.skip(p as int));
}


// ---------------------------------------------------------------------------
// Sorted sets of strings
// ---------------------------------------------------------------------------

/// `x` added to the ascending list `t` unless it is there already.
pub open spec fn insert_unique(t: Seq<Seq<char>>, x: Seq<char>) -> Seq<Seq<char>>
    decreases t.len(),
{
    if t.len() == 0 {
        seq![x]
    } else if t.last() == x {
        t
    } else if str_lt(x, t.last()) {
        insert_unique(t.drop_last(), x).push(t.last())
    } else {
        t.push(x)
    }
}

/// Adding a string keeps a list strictly ascending, and adds exactly that
/// string to its elements.
pub proof fn lemma_insert_unique(t: Seq<Seq<char>>, x: Seq<char>)
    requires
        strictly_ascending(t),
    ensures
        strictly_ascending(insert_unique(t, x)),
        insert_unique(t, x).to_set() =~= t.to_set().insert(x),
    decreases t.len(),
{
    if t.len() == 0 {
        assert(seq![x].to_set() =~= Set::<Seq<char>>::empty().insert(x)) by {
            assert forall|y: Seq<char>| seq![x].contains(y) <==> y == x by {
                if y == x {
                    assert(seq![x][0] == y);
                }
            }
        }
        assert(t.to_set() =~= Set::<Seq<char>>::empty());
    } else if t.last() == x {
        assert(t.contains(x)) by {
            assert(t[t.len() - 1] == x);
        }
    } else if str_lt(x, t.last()) {
        let u = t.drop_last();
        assert(strictly_ascending(u)) by {
            assert forall|i: int, j: int| 0 <= i < j < u.len() implies str_lt(u[i], u[j]) by {
                assert(u[i] == t[i] && u[j] == t[j]);
            }
        }
        lemma_insert_unique(u, x);
        let w = insert_unique(u, x);
        assert(t =~= u.push(t.last()));
        assert forall|i: int, j: int| 0 <= i < j < w.push(t.last()).len() implies str_lt(
            w.push(t.last())[i],
            w.push(t.last())[j],
        ) by {
            if j == w.len() {
                let e = w[i];
                assert(w.contains(e));
                assert(w.to_set().contains(e));
                if e == x {
                } else {
                    assert(u.to_set().contains(e));
                    let k = choose|k: int| 0 <= k < u.len() && u[k] == e;
                    assert(t[k] == e);
                    assert(str_lt(t[k], t[t.len() - 1]));
                }
            }
        }
        assert(w.push(t.last()).to_set() =~= t.to_set().insert(x)) by {
            assert forall|y: Seq<char>| w.push(t.last()).contains(y) <==> t.to_set().insert(x).contains(y) by {
                if w.push(t.last()).contains(y) {
                    let k = choose|k: int| 0 <= k < w.push(t.last()).len() && w.push(t.last())[k] == y;
                    if k < w.len() {
                        assert(w.contains(y));
                        assert(w.to_set().contains(y));
                        if y != x {
                            assert(u.to_set().contains(y));
                            let m = choose|m: int| 0 <= m < u.len() && u[m] == y;
                            assert(t[m] == y);
                        }
                    } else {
                        assert(t[t.len() - 1] == y);
                    }
                }
                if t.to_set().insert(x).contains(y) {
                    if y == x {
                        assert(w.to_set().contains(x));
                        let k = choose|k: int| 0 <= k < w.len() && w[k] == x;
                        assert(w.push(t.last())[k] == y);
                    } else {
                        let k = choose|k: int| 0 <= k < t.len() && t[k] == y;
                        if k == t.len() - 1 {
                            assert(w.push(t.last())[w.len() as int] == y);
                        } else {
                            assert(u[k] == y);
                            assert(u.to_set().contains(y));
                            assert(w.to_set().contains(y));
                            let m = choose|m: int| 0 <= m < w.len() && w[m] == y;
                            assert(w.push(t.last())[m] == y);
                        }
                    }
                }
            }
        }
    } else {
        lemma_lt_total(x, t.last());
        assert forall|i: int, j: int| 0 <= i < j < t.push(x).len() implies str_lt(
            t.push(x)[i],
            t.push(x)[j],
        ) by {
            if j == t.len() {
                if i < t.len() - 1 {
                    lemma_lt_transitive(t[i], t[t.len() - 1], x);
                }
            }
        }
        assert(t.push(x).to_set() =~= t.to_set().insert(x)) by {
            assert forall|y: Seq<char>| t.push(x).contains(y) <==> t.to_set().insert(x).contains(y) by {
                if t.push(x).contains(y) {
                    let k = choose|k: int| 0 <= k < t.push(x).len() && t.push(x)[k] == y;
                    if k < t.len() {
                        assert(t[k] == y);
                    }
                }
                if t.to_set().insert(x).contains(y) {
                    if y == x {
                        assert(t.push(x)[t.len() as int] == y);
                    } else {
                        let k = choose|k: int| 0 <= k < t.len() && t[k] == y;
                        assert(t.push(x)[k] == y);
                    }
                }
            }
        }
    }
}

/// Adds `x` to the strictly ascending list `out` unless it is there.
pub fn insert_unique_sorted(out: &mut Vec<String>, x: &str)
    ensures
        str_views(final(out)@) == insert_unique(str_views(old(out)@), x@),
{
    let ghost t = str_views(out@);
    let mut p = out.len();
    assert(t.take(p as int) =~= t);
    assert(t.skip(p as int) =~= Seq::<Seq<char>>::empty());
    assert(insert_unique(t, x@) =~= insert_unique(t.take(p as int), x@) + t.skip(p as int));
    while p > 0 && !crate::text::str_eq(out[p - 1].as_str(), x) && str_less(x, out[p - 1].as_str())
        invariant
            p <= out.len(),
            t == str_views(out@),
            insert_unique(t, x@) == insert_unique(t.take(p as int), x@) + t.skip(p as int),
        decreases p,
    {
        proof {
            let u = t.take(p as int);
            assert(u.last() == t[p - 1]);
            assert(u.drop_last() =~= t.take(p - 1));
            assert(t.skip(p - 1) =~= seq![t[p - 1]] + t.skip(p as int));
            assert(insert_unique(u, x@) == insert_unique(t.take(p - 1), x@).push(t[p - 1]));
            assert(insert_unique(t.take(p - 1), x@).push(t[p - 1]) + t.skip(p as int) =~= insert_unique(
                t.take(p - 1),
                x@,
            ) + t.skip(p - 1));
        }
        p = p - 1;
    }
    let ghost u = t.take(p as int);
    if p > 0 && crate::text::str_eq(out[p - 1].as_str(), x) {
        proof {
            assert(u.last() == t[p - 1]);
            assert(insert_unique(u, x@) == u);
            assert(u + t.skip(p as int) =~= t);
        }
        return;
    }
    proof {
        if p > 0 {
            assert(u.last() == t[p - 1]);
            assert(insert_unique(u, x@) == u.push(x@));
        } else {
            assert(insert_unique(u, x@) == seq![x@]);
        }
    }
    out.insert(p, String::from_str(x));
    assert(str_views(out@) =~= t.take(p as int).push(x@) + t.skip(p as int));
}

/// Mapping two permutations of one another gives permutations of one
/// another.
pub proof fn lemma_map_permutation<A, B>(a: Seq<A>, b: Seq<A>, f: spec_fn(A) -> B)
    requires
        a.to_multiset() == b.to_multiset(),
    ensures
        a.map_values(f).to_multiset() == b.map_values(f).to_multiset(),
    decreases a.len(),
{
    broadcast use vstd::seq_lib::group_to_multiset_ensures;

    assert(a.to_multiset().len() == a.len());
    assert(b.to_multiset().len() == b.len());
    if a.len() == 0 {
        assert(b.len() == 0);
        assert(a.map_values(f) =~= Seq::<B>::empty());
        assert(b.map_values(f) =~= Seq::<B>::empty());
    } else {
        let x = a.last();
        let t = a.drop_last();
        assert(a =~= t.push(x));
        assert(a.contains(x)) by {
            assert(a[a.len() - 1] == x);
        }
        assert(a.to_multiset().count(x) > 0);
        assert(b.to_multiset().count(x) > 0);
        assert(b.contains(x));
        let j = choose|j: int| 0 <= j < b.len() && b[j] == x;
        let r = b.remove(j);
        assert(t.to_multiset() =~= r.to_multiset()) by {
            assert(a.to_multiset() =~= t.to_multiset().insert(x));
            assert(r.to_multiset() =~= b.to_multiset().remove(x));
        }
        lemma_map_permutation(t, r, f);
        let ma = a.map_values(f);
        let mb = b.map_values(f);
        assert(ma =~= t.map_values(f).push(f(x)));
        assert(mb.remove(j) =~= r.map_values(f));
        assert(mb[j] == f(x));
        assert(mb.remove(j).to_multiset() =~= mb.to_multiset().remove(f(x)));
        assert(mb.contains(f(x)));
        assert(mb.to_multiset().count(f(x)) > 0);
        assert(mb.to_multiset() =~= mb.to_multiset().remove(f(x)).insert(f(x)));
        assert(ma.to_multiset() =~= t.map_values(f).to_multiset().insert(f(x)));
    }
}

} // verus!
