//! Stable ordering by an integer key, stated without reference to any
//! particular algorithm: the result is ordered by the key, and the elements
//! that share a key keep their relative order from the input.

use vstd::prelude::*;

verus! {

/// `s` is ordered by `key` (non-decreasing).
pub open spec fn sorted_by<T>(s: Seq<T>, key: spec_fn(T) -> int) -> bool {
    forall|i: int, j: int| 0 <= i < j < s.len() ==> key(s[i]) <= key(s[j])
}

/// The elements of `s` whose key is `k`, in their order in `s`.
pub open spec fn with_key<T>(s: Seq<T>, key: spec_fn(T) -> int, k: int) -> Seq<T>
    decreases s.len(),
{
    if s.len() == 0 {
        Seq::empty()
    } else if key(s.last()) == k {
        with_key(s.drop_last(), key, k).push(s.last())
    } else {
        with_key(s.drop_last(), key, k)
    }
}

/// `out` is the stable ordering of `inp` by `key`.
pub open spec fn stable_sort_of<T>(out: Seq<T>, inp: Seq<T>, key: spec_fn(T) -> int) -> bool {
    &&& sorted_by(out, key)
    &&& forall|k: int| #[trigger] with_key(out, key, k) == with_key(inp, key, k)
}

/// Number of elements of `s` with key `k`.
pub proof fn lemma_with_key_concat<T>(a: Seq<T>, b: Seq<T>, key: spec_fn(T) -> int, k: int)
    ensures
        with_key(a + b, key, k) == with_key(a, key, k) + with_key(b, key, k),
    decreases b.len(),
{
    if b.len() == 0 {
        assert(a + b =~= a);
        assert(with_key(b, key, k) =~= Seq::<T>::empty());
        assert(with_key(a, key, k) + with_key(b, key, k) =~= with_key(a, key, k));
    } else {
        assert((a + b).drop_last() =~= a + b.drop_last());
        assert((a + b).last() == b.last());
        lemma_with_key_concat(a, b.drop_last(), key, k);
        if key(b.last()) == k {
            assert(with_key(a, key, k) + with_key(b.drop_last(), key, k).push(b.last()) =~= (
            with_key(a, key, k) + with_key(b.drop_last(), key, k)).push(b.last()));
        }
    }
}

/// A sequence whose keys all differ from `k` keeps nothing.
pub proof fn lemma_with_key_none<T>(s: Seq<T>, key: spec_fn(T) -> int, k: int)
    requires
        forall|i: int| 0 <= i < s.len() ==> key(s[i]) != k,
    ensures
        with_key(s, key, k) == Seq::<T>::empty(),
    decreases s.len(),
{
    if s.len() > 0 {
        lemma_with_key_none(s.drop_last(), key, k);
    }
}

/// A single element.
pub proof fn lemma_with_key_single<T>(x: T, key: spec_fn(T) -> int, k: int)
    ensures
        with_key(seq![x], key, k) == (if key(x) == k {
            seq![x]
        } else {
            Seq::<T>::empty()
        }),
{
    assert(seq![x].drop_last() =~= Seq::<T>::empty());
    assert(seq![x].last() == x);
    assert(with_key(Seq::<T>::empty(), key, k) =~= Seq::<T>::empty());
    if key(x) == k {
        assert(Seq::<T>::empty().push(x) =~= seq![x]);
    }
}

/// Inserting `x` after every element whose key is at most its own, and before
/// every element whose key is larger, extends a stable ordering of `inp` to a
/// stable ordering of `inp.push(x)`.
pub proof fn lemma_insert_stable<T>(out: Seq<T>, inp: Seq<T>, x: T, p: int, key: spec_fn(T) -> int)
    requires
        stable_sort_of(out, inp, key),
        0 <= p <= out.len(),
        forall|i: int| 0 <= i < p ==> key(out[i]) <= key(x),
        forall|i: int| p <= i < out.len() ==> key(out[i]) > key(x),
    ensures
        stable_sort_of(out.take(p) + seq![x] + out.skip(p), inp.push(x), key),
{
    let res = out.take(p) + seq![x] + out.skip(p);
    assert forall|i: int, j: int| 0 <= i < j < res.len() implies key(res[i]) <= key(res[j]) by {
        if j < p {
            assert(res[i] == out[i] && res[j] == out[j]);
        } else if j == p {
            assert(res[j] == x);
            assert(res[i] == out[i]);
        } else if i < p {
            assert(res[i] == out[i] && res[j] == out[j - 1]);
        } else if i == p {
            assert(res[i] == x && res[j] == out[j - 1]);
        } else {
            assert(res[i] == out[i - 1] && res[j] == out[j - 1]);
        }
    }
    assert forall|k: int| #[trigger] with_key(res, key, k) == with_key(inp.push(x), key, k) by {
        assert(out.take(p) + out.skip(p) =~= out);
        lemma_with_key_concat(out.take(p), out.skip(p), key, k);
        lemma_with_key_concat(out.take(p) + seq![x], out.skip(p), key, k);
        lemma_with_key_concat(out.take(p), seq![x], key, k);
        lemma_with_key_single(x, key, k);
        assert(inp.push(x).drop_last() =~= inp);
        if key(x) == k {
            lemma_with_key_none(out.skip(p), key, k);
            assert(with_key(out.take(p), key, k) + seq![x] + Seq::<T>::empty() =~= with_key(
                out.take(p),
                key,
                k,
            ).push(x));
            assert(with_key(out.take(p), key, k) + Seq::<T>::empty() =~= with_key(
                out.take(p),
                key,
                k,
            ));
        } else {
            assert(with_key(out.take(p), key, k) + Seq::<T>::empty() =~= with_key(
                out.take(p),
                key,
                k,
            ));
        }
    }
}

/// The empty sequence is the stable ordering of itself.
pub proof fn lemma_stable_empty<T>(key: spec_fn(T) -> int)
    ensures
        stable_sort_of(Seq::<T>::empty(), Seq::<T>::empty(), key),
{
}

/// A stable ordering is unique: two stable orderings of the same input are
/// equal.
pub proof fn lemma_stable_sort_unique<T>(a: Seq<T>, b: Seq<T>, inp: Seq<T>, key: spec_fn(T) -> int)
    requires
        stable_sort_of(a, inp, key),
        stable_sort_of(b, inp, key),
    ensures
        a == b,
    decreases a.len() + b.len(),
{
    if a.len() == 0 && b.len() == 0 {
        assert(a =~= b);
    } else if a.len() == 0 {
        let k = key(b.last());
        assert(with_key(a, key, k) == with_key(inp, key, k));
        assert(with_key(b, key, k) == with_key(inp, key, k));
        assert(with_key(b, key, k).len() > 0);
    } else if b.len() == 0 {
        let k = key(a.last());
        assert(with_key(a, key, k) == with_key(inp, key, k));
        assert(with_key(b, key, k) == with_key(inp, key, k));
        assert(with_key(a, key, k).len() > 0);
    } else {
        let ka = key(a.last());
        let kb = key(b.last());
        // The largest key present in each ordering sits at its end.
        lemma_last_key_is_max(a, key);
        lemma_last_key_is_max(b, key);
        assert(with_key(a, key, ka) == with_key(inp, key, ka));
        assert(with_key(b, key, ka) == with_key(inp, key, ka));
        assert(with_key(a, key, kb) == with_key(inp, key, kb));
        assert(with_key(b, key, kb) == with_key(inp, key, kb));
        lemma_with_key_member(b, key, ka);
        lemma_with_key_member(a, key, kb);
        assert(ka == kb);
        let k = ka;
        // Both end with the last element of the key-k subsequence.
        assert(with_key(a, key, k).last() == a.last());
        assert(with_key(b, key, k).last() == b.last());
        assert(a.last() == b.last());
        let inp2 = with_key_remove_last(inp, key, k);
        lemma_drop_last_stable(a, inp, key, k);
        lemma_drop_last_stable(b, inp, key, k);
        lemma_stable_sort_unique(a.drop_last(), b.drop_last(), inp2, key);
        assert(a =~= a.drop_last().push(a.last()));
        assert(b =~= b.drop_last().push(b.last()));
    }
}

/// In an ordered sequence the last key is the largest.
proof fn lemma_last_key_is_max<T>(s: Seq<T>, key: spec_fn(T) -> int)
    requires
        sorted_by(s, key),
        s.len() > 0,
    ensures
        forall|i: int| 0 <= i < s.len() ==> key(s[i]) <= key(s.last()),
{
}

/// If some element has key `k`, the key-`k` subsequence is nonempty; its
/// elements all have key `k`.
proof fn lemma_with_key_member<T>(s: Seq<T>, key: spec_fn(T) -> int, k: int)
    ensures
        (exists|i: int| 0 <= i < s.len() && key(s[i]) == k) <==> with_key(s, key, k).len() > 0,
        forall|i: int| 0 <= i < with_key(s, key, k).len() ==> key(with_key(s, key, k)[i]) == k,
    decreases s.len(),
{
    if s.len() > 0 {
        lemma_with_key_member(s.drop_last(), key, k);
        if exists|i: int| 0 <= i < s.len() && key(s[i]) == k {
            let i = choose|i: int| 0 <= i < s.len() && key(s[i]) == k;
            if i < s.len() - 1 {
                assert(s.drop_last()[i] == s[i]);
            }
        }
        if with_key(s, key, k).len() > 0 {
            if key(s.last()) != k {
                let i = choose|i: int| 0 <= i < s.drop_last().len() && key(s.drop_last()[i]) == k;
                assert(s[i] == s.drop_last()[i]);
            }
        }
        let w = with_key(s, key, k);
        let w0 = with_key(s.drop_last(), key, k);
        assert forall|i: int| 0 <= i < w.len() implies key(w[i]) == k by {
            if key(s.last()) == k {
                if i < w0.len() {
                    assert(w[i] == w0[i]);
                }
            }
        }
    }
}

/// `inp` with the last element of key `k` removed.
pub open spec fn with_key_remove_last<T>(s: Seq<T>, key: spec_fn(T) -> int, k: int) -> Seq<T>
    decreases s.len(),
{
    if s.len() == 0 {
        s
    } else if key(s.last()) == k {
        s.drop_last()
    } else {
        with_key_remove_last(s.drop_last(), key, k).push(s.last())
    }
}

/// Removing the last element (of key `k`) of a stable ordering yields the
/// stable ordering of the input with its last key-`k` element removed.
proof fn lemma_drop_last_stable<T>(out: Seq<T>, inp: Seq<T>, key: spec_fn(T) -> int, k: int)
    requires
        stable_sort_of(out, inp, key),
        out.len() > 0,
        key(out.last()) == k,
    ensures
        stable_sort_of(out.drop_last(), with_key_remove_last(inp, key, k), key),
{
    assert forall|j: int| #[trigger]
        with_key(out.drop_last(), key, j) == with_key(with_key_remove_last(inp, key, k), key, j) by {
        assert(with_key(out, key, k) == with_key(out.drop_last(), key, k).push(out.last()));
        assert(with_key(out, key, k) == with_key(inp, key, k));
        lemma_remove_last_with_key(inp, key, k, j);
        assert(with_key(out, key, j) == with_key(inp, key, j));
        if j == k {
            assert(with_key(out, key, k) == with_key(out.drop_last(), key, k).push(out.last()));
            assert(with_key(out.drop_last(), key, k) =~= with_key(out, key, k).drop_last());
        }
    }
}

/// Effect of removing the last key-`k` element on each key subsequence.
proof fn lemma_remove_last_with_key<T>(s: Seq<T>, key: spec_fn(T) -> int, k: int, j: int)
    requires
        with_key(s, key, k).len() > 0,
    ensures
        with_key(with_key_remove_last(s, key, k), key, j) == (if j == k {
            with_key(s, key, k).drop_last()
        } else {
            with_key(s, key, j)
        }),
    decreases s.len(),
{
    if key(s.last()) == k {
        if j == k {
            assert(with_key(s, key, k).drop_last() =~= with_key(s.drop_last(), key, k));
        }
    } else {
        lemma_remove_last_with_key(s.drop_last(), key, k, j);
        let r = with_key_remove_last(s.drop_last(), key, k);
        assert(r.push(s.last()).drop_last() =~= r);
    }
}

/// Every element of `s` with key `k` appears in its key-`k` subsequence.
proof fn lemma_in_with_key<T>(s: Seq<T>, key: spec_fn(T) -> int, i: int)
    requires
        0 <= i < s.len(),
    ensures
        exists|m: int|
            #![trigger with_key(s, key, key(s[i]))[m]]
            0 <= m < with_key(s, key, key(s[i])).len() && with_key(s, key, key(s[i]))[m] == s[i],
    decreases s.len(),
{
    let k = key(s[i]);
    if i == s.len() - 1 {
        let w = with_key(s, key, k);
        assert(w[w.len() - 1] == s[i]);
    } else {
        lemma_in_with_key(s.drop_last(), key, i);
        assert(s.drop_last()[i] == s[i]);
        let w0 = with_key(s.drop_last(), key, k);
        let m = choose|m: int| 0 <= m < w0.len() && w0[m] == s[i];
        if key(s.last()) == k {
            assert(with_key(s, key, k)[m] == w0[m]);
        } else {
            assert(with_key(s, key, k) == w0);
        }
        assert(with_key(s, key, k)[m] == s[i]);
    }
}

/// Every element of a key subsequence is an element of the sequence.
proof fn lemma_with_key_elem<T>(s: Seq<T>, key: spec_fn(T) -> int, k: int, m: int)
    requires
        0 <= m < with_key(s, key, k).len(),
    ensures
        exists|j: int| 0 <= j < s.len() && s[j] == with_key(s, key, k)[m],
    decreases s.len(),
{
    let w0 = with_key(s.drop_last(), key, k);
    if key(s.last()) == k && m == w0.len() {
        assert(s[s.len() - 1] == with_key(s, key, k)[m]);
    } else {
        assert(with_key(s, key, k)[m] == w0[m]);
        lemma_with_key_elem(s.drop_last(), key, k, m);
        let j = choose|j: int| 0 <= j < s.drop_last().len() && s.drop_last()[j] == w0[m];
        assert(s[j] == s.drop_last()[j]);
    }
}

/// Every element of a stable ordering comes from its input.
pub proof fn lemma_sorted_member<T>(out: Seq<T>, inp: Seq<T>, key: spec_fn(T) -> int, i: int)
    requires
        stable_sort_of(out, inp, key),
        0 <= i < out.len(),
    ensures
        exists|j: int| 0 <= j < inp.len() && inp[j] == out[i],
{
    let k = key(out[i]);
    lemma_in_with_key(out, key, i);
    let m = choose|m: int| 0 <= m < with_key(out, key, k).len() && with_key(out, key, k)[m] == out[i];
    assert(with_key(out, key, k) == with_key(inp, key, k));
    lemma_with_key_elem(inp, key, k, m);
}

/// Position `p` splits `s` into the keys at most `k` and the larger ones.
pub open spec fn splits_at<T>(s: Seq<T>, key: spec_fn(T) -> int, k: int, p: int) -> bool {
    &&& 0 <= p <= s.len()
    &&& forall|i: int| 0 <= i < p ==> key(#[trigger] s[i]) <= k
    &&& forall|i: int| p <= i < s.len() ==> key(#[trigger] s[i]) > k
}

/// In an ordered sequence, some position splits the keys at most `k` from
/// the larger ones.
proof fn lemma_split_point<T>(s: Seq<T>, key: spec_fn(T) -> int, k: int)
    requires
        sorted_by(s, key),
    ensures
        exists|p: int| #[trigger] splits_at(s, key, k, p),
    decreases s.len(),
{
    if s.len() == 0 {
        assert(splits_at(s, key, k, 0));
    } else if key(s.last()) <= k {
        let p = s.len() as int;
        assert forall|i: int| 0 <= i < p implies key(#[trigger] s[i]) <= k by {
            if i < s.len() - 1 {
                assert(key(s[i]) <= key(s[s.len() - 1]));
            }
        }
        assert(splits_at(s, key, k, p));
    } else {
        let t = s.drop_last();
        assert(sorted_by(t, key)) by {
            assert forall|i: int, j: int| 0 <= i < j < t.len() implies key(t[i]) <= key(t[j]) by {
                assert(t[i] == s[i] && t[j] == s[j]);
            }
        }
        lemma_split_point(t, key, k);
        let p = choose|p: int| #[trigger] splits_at(t, key, k, p);
        assert forall|i: int| 0 <= i < p implies key(#[trigger] s[i]) <= k by {
            assert(s[i] == t[i]);
        }
        assert forall|i: int| p <= i < s.len() implies key(#[trigger] s[i]) > k by {
            if i < t.len() {
                assert(s[i] == t[i]);
            }
        }
        assert(splits_at(s, key, k, p));
    }
}

/// Every sequence has a stable ordering.
pub proof fn lemma_stable_exists<T>(inp: Seq<T>, key: spec_fn(T) -> int)
    ensures
        exists|out: Seq<T>| stable_sort_of(out, inp, key),
    decreases inp.len(),
{
    if inp.len() == 0 {
        lemma_stable_empty(key);
        assert(inp =~= Seq::<T>::empty());
        assert(stable_sort_of(Seq::<T>::empty(), inp, key));
    } else {
        let t = inp.drop_last();
        let x = inp.last();
        lemma_stable_exists(t, key);
        let out = choose|out: Seq<T>| stable_sort_of(out, t, key);
        lemma_split_point(out, key, key(x));
        let p = choose|p: int| #[trigger] splits_at(out, key, key(x), p);
        lemma_insert_stable(out, t, x, p, key);
        assert(t.push(x) =~= inp);
        assert(stable_sort_of(out.take(p) + seq![x] + out.skip(p), inp, key));
    }
}

/// No two elements of `s` share a key.
pub open spec fn distinct_keys<T>(s: Seq<T>, key: spec_fn(T) -> int) -> bool {
    forall|i: int, j: int| 0 <= i < j < s.len() ==> key(#[trigger] s[i]) != key(#[trigger] s[j])
}

proof fn lemma_with_key_distinct<T>(s: Seq<T>, key: spec_fn(T) -> int, k: int)
    requires
        distinct_keys(s, key),
    ensures
        (forall|i: int| 0 <= i < s.len() ==> key(#[trigger] s[i]) != k) ==> with_key(s, key, k)
            == Seq::<T>::empty(),
        forall|i: int|
            0 <= i < s.len() && key(#[trigger] s[i]) == k ==> with_key(s, key, k) == seq![s[i]],
    decreases s.len(),
{
    if s.len() > 0 {
        let t = s.drop_last();
        assert(distinct_keys(t, key)) by {
            assert forall|i: int, j: int| 0 <= i < j < t.len() implies key(#[trigger] t[i]) != key(
                #[trigger] t[j],
            ) by {
                assert(t[i] == s[i] && t[j] == s[j]);
            }
        }
        lemma_with_key_distinct(t, key, k);
        assert forall|i: int| 0 <= i < s.len() && key(#[trigger] s[i]) == k implies with_key(
            s,
            key,
            k,
        ) == seq![s[i]] by {
            if i < t.len() {
                assert(t[i] == s[i]);
                assert(key(s[i]) != key(s[s.len() - 1]));
            } else {
                assert forall|m: int| 0 <= m < t.len() implies key(#[trigger] t[m]) != k by {
                    assert(t[m] == s[m]);
                    assert(key(s[m]) != key(s[s.len() - 1]));
                }
                assert(Seq::<T>::empty().push(s.last()) =~= seq![s[i]]);
            }
        }
        if forall|i: int| 0 <= i < s.len() ==> key(#[trigger] s[i]) != k {
            assert forall|m: int| 0 <= m < t.len() implies key(#[trigger] t[m]) != k by {
                assert(t[m] == s[m]);
            }
            assert(key(s[s.len() - 1]) != k);
        }
    }
}

/// Where no two elements share a key, two sequences that hold the same
/// elements have the same stable ordering.
pub proof fn lemma_stable_same_elements<T>(a: Seq<T>, b: Seq<T>, out: Seq<T>, key: spec_fn(T) -> int)
    requires
        distinct_keys(a, key),
        distinct_keys(b, key),
        forall|x: T| a.contains(x) <==> b.contains(x),
        stable_sort_of(out, a, key),
    ensures
        stable_sort_of(out, b, key),
{
    assert forall|k: int| #[trigger] with_key(out, key, k) == with_key(b, key, k) by {
        lemma_with_key_distinct(a, key, k);
        lemma_with_key_distinct(b, key, k);
        assert(with_key(out, key, k) == with_key(a, key, k));
        if exists|i: int| 0 <= i < a.len() && key(a[i]) == k {
            let i = choose|i: int| 0 <= i < a.len() && key(a[i]) == k;
            assert(a.contains(a[i]));
            assert(b.contains(a[i]));
            let j = choose|j: int| 0 <= j < b.len() && b[j] == a[i];
            assert(key(b[j]) == k);
        } else {
            assert forall|j: int| 0 <= j < b.len() implies key(#[trigger] b[j]) != k by {
                if key(b[j]) == k {
                    assert(b.contains(b[j]));
                    assert(a.contains(b[j]));
                    let i = choose|i: int| 0 <= i < a.len() && a[i] == b[j];
                    assert(key(a[i]) == k);
                }
            }
        }
    }
}

} // verus!
