//! A stable sort of keyed items by the value of a decimal key, the order
//! `sort_by(|a, b| a.key.cmp(&b.key))` gives.

use crate::decimal::Dec;
use vstd::prelude::*;

verus! {

/// `p` maps each position of `r` to the position in `s` its item came from,
/// one to one; `r` is ordered by key and items with equal keys keep the order
/// they had in `s`.
pub open spec fn stable_sort_witness<T>(r: Seq<(Dec, T)>, s: Seq<(Dec, T)>, p: Seq<int>) -> bool {
    &&& r.len() == s.len()
    &&& p.len() == s.len()
    &&& forall|k: int| 0 <= k < r.len() ==> 0 <= #[trigger] p[k] < s.len() && r[k] == s[p[k]]
    &&& forall|a: int, b: int| 0 <= a < b < r.len() ==> p[a] != p[b]
    &&& forall|a: int, b: int| 0 <= a < b < r.len() ==> r[a].0@ <= r[b].0@
    &&& forall|a: int, b: int| 0 <= a < b < r.len() && r[a].0@ == r[b].0@ ==> p[a] < p[b]
}

/// `r` is `s` sorted stably by key.
pub open spec fn is_stable_sort<T>(r: Seq<(Dec, T)>, s: Seq<(Dec, T)>) -> bool {
    exists|p: Seq<int>| stable_sort_witness(r, s, p)
}

pub open spec fn keys_wf<T>(s: Seq<(Dec, T)>) -> bool {
    forall|k: int| 0 <= k < s.len() ==> (#[trigger] s[k]).0.wf()
}

/// Where `x` goes in `r`: before the first item whose key is greater.
pub open spec fn insert_pos<T>(r: Seq<(Dec, T)>, x: (Dec, T)) -> nat
    decreases r.len(),
{
    if r.len() == 0 {
        0
    } else if x.0@ < r[0].0@ {
        0
    } else {
        1 + insert_pos(r.drop_first(), x)
    }
}

/// Insertion sort: each item goes after every earlier item whose key is not greater.
pub open spec fn insertion_sorted<T>(s: Seq<(Dec, T)>) -> Seq<(Dec, T)>
    decreases s.len(),
{
    if s.len() == 0 {
        Seq::empty()
    } else {
        let r = insertion_sorted(s.drop_last());
        r.insert(insert_pos(r, s.last()) as int, s.last())
    }
}

/// A position after every key at most `x`'s and before every larger one is where `x` is inserted.
pub proof fn lemma_insert_pos<T>(r: Seq<(Dec, T)>, x: (Dec, T), j: nat)
    requires
        j <= r.len(),
        forall|t: int| 0 <= t < j ==> r[t].0@ <= x.0@,
        j == r.len() || x.0@ < r[j as int].0@,
    ensures
        insert_pos(r, x) == j,
    decreases j,
{
    if j > 0 {
        assert(!(x.0@ < r[0].0@));
        assert forall|t: int| 0 <= t < j - 1 implies r.drop_first()[t].0@ <= x.0@ by {
            assert(r.drop_first()[t] == r[t + 1]);
        }
        if j < r.len() {
            assert(r.drop_first()[j - 1] == r[j as int]);
        }
        lemma_insert_pos(r.drop_first(), x, (j - 1) as nat);
    }
}

/// Where `x` is inserted: after the keys at most its own, before the first larger one.
pub proof fn lemma_insert_pos_bounds<T>(r: Seq<(Dec, T)>, x: (Dec, T))
    ensures
        insert_pos(r, x) <= r.len(),
        forall|t: int| 0 <= t < insert_pos(r, x) ==> r[t].0@ <= x.0@,
        insert_pos(r, x) == r.len() || x.0@ < r[insert_pos(r, x) as int].0@,
    decreases r.len(),
{
    if r.len() > 0 && !(x.0@ < r[0].0@) {
        lemma_insert_pos_bounds(r.drop_first(), x);
        assert forall|t: int| 0 <= t < insert_pos(r, x) implies r[t].0@ <= x.0@ by {
            if t > 0 {
                assert(r[t] == r.drop_first()[t - 1]);
            }
        }
        if insert_pos(r, x) < r.len() {
            assert(r[insert_pos(r, x) as int] == r.drop_first()[insert_pos(r.drop_first(), x) as int]);
        }
    }
}

/// The insertion sort is a stable sort.
pub proof fn lemma_insertion_sorted_is_stable<T>(s: Seq<(Dec, T)>) -> (p: Seq<int>)
    ensures
        stable_sort_witness(insertion_sorted(s), s, p),
    decreases s.len(),
{
    if s.len() == 0 {
        Seq::empty()
    } else {
        let i = (s.len() - 1) as int;
        let sp = s.drop_last();
        let old_perm = lemma_insertion_sorted_is_stable(sp);
        let old_result = insertion_sorted(sp);
        let x = s.last();
        let j = insert_pos(old_result, x) as int;
        lemma_insert_pos_bounds(old_result, x);
        let perm = old_perm.insert(j, i);
        let result = insertion_sorted(s);
        assert(result == old_result.insert(j, x));
        old_result.insert_ensures(j, x);
        old_perm.insert_ensures(j, i);
        assert forall|k: int| 0 <= k < i + 1 implies 0 <= #[trigger] perm[k] < i + 1 && result[k] == s[perm[k]] by {
            if k < j {
                assert(perm[k] == old_perm[k]);
                assert(sp[old_perm[k]] == s[old_perm[k]]);
            } else if k > j {
                assert(perm[k] == old_perm[k - 1]);
                assert(result[k] == old_result[k - 1]);
                assert(sp[old_perm[k - 1]] == s[old_perm[k - 1]]);
            }
        }
        assert forall|a: int, b: int| 0 <= a < b < i + 1 implies perm[a] != perm[b] by {
            if a < j && b < j {
            } else if a < j && b == j {
                assert(old_perm[a] < i);
            } else if a < j && b > j {
                assert(perm[b] == old_perm[b - 1]);
            } else if a == j {
                assert(perm[b] == old_perm[b - 1]);
                assert(old_perm[b - 1] < i);
            } else {
                assert(perm[a] == old_perm[a - 1]);
                assert(perm[b] == old_perm[b - 1]);
            }
        }
        assert forall|a: int, b: int| 0 <= a < b < i + 1 implies result[a].0@ <= result[b].0@ by {
            if j < i && a <= j && b > j {
                assert(x.0@ < old_result[j].0@);
                assert(old_result[j].0@ <= old_result[b - 1].0@ || j == b - 1);
            }
            if a < j && b > j {
                assert(old_result[a].0@ <= x.0@);
            }
            if a > j {
                assert(result[a] == old_result[a - 1]);
                assert(result[b] == old_result[b - 1]);
            }
            if a < j && b == j {
                assert(old_result[a].0@ <= x.0@);
            }
        }
        assert forall|a: int, b: int| 0 <= a < b < i + 1 && result[a].0@ == result[b].0@ implies perm[a]
            < perm[b] by {
            if a < j && b == j {
                assert(old_perm[a] < i);
            } else if a < j && b > j {
                assert(old_result[a].0@ <= x.0@);
                assert(x.0@ < old_result[j].0@);
                assert(old_result[j].0@ <= old_result[b - 1].0@ || j == b - 1);
            } else if a == j && b > j {
                assert(x.0@ < old_result[j].0@);
                assert(old_result[j].0@ <= old_result[b - 1].0@ || j == b - 1);
            } else if a > j {
                assert(perm[a] == old_perm[a - 1]);
                assert(perm[b] == old_perm[b - 1]);
                assert(result[a] == old_result[a - 1]);
                assert(result[b] == old_result[b - 1]);
            }
        }
        perm
    }
}

/// Every item of the sorted sequence comes from the input.
pub proof fn lemma_insertion_sorted_items<T>(s: Seq<(Dec, T)>)
    ensures
        insertion_sorted(s).len() == s.len(),
        forall|k: int| 0 <= k < s.len() ==> exists|t: int| 0 <= t < s.len() && #[trigger] insertion_sorted(s)[k] == s[t],
{
    let p = lemma_insertion_sorted_is_stable(s);
    assert forall|k: int| 0 <= k < s.len() implies exists|t: int| 0 <= t < s.len() && #[trigger] insertion_sorted(s)[k] == s[t] by {
        assert(insertion_sorted(s)[k] == s[p[k]]);
    }
}

/// The items of `s` mapped by `f`, keys kept.
pub open spec fn keyed_map<T, U>(s: Seq<(Dec, T)>, f: spec_fn(T) -> U) -> Seq<(Dec, U)> {
    s.map_values(|p: (Dec, T)| (p.0, f(p.1)))
}

/// Mapping the items leaves the insertion position unchanged: it depends on the keys alone.
pub proof fn lemma_insert_pos_map<T, U>(r: Seq<(Dec, T)>, x: (Dec, T), f: spec_fn(T) -> U)
    ensures
        insert_pos(keyed_map(r, f), (x.0, f(x.1))) == insert_pos(r, x),
    decreases r.len(),
{
    if r.len() > 0 {
        assert(keyed_map(r, f).drop_first() =~= keyed_map(r.drop_first(), f));
        lemma_insert_pos_map(r.drop_first(), x, f);
    }
}

/// Sorting commutes with mapping the items: the order depends on keys only.
pub proof fn lemma_insertion_sorted_map<T, U>(s: Seq<(Dec, T)>, f: spec_fn(T) -> U)
    ensures
        insertion_sorted(keyed_map(s, f)) == keyed_map(insertion_sorted(s), f),
    decreases s.len(),
{
    if s.len() > 0 {
        assert(keyed_map(s, f).drop_last() =~= keyed_map(s.drop_last(), f));
        assert(keyed_map(s, f).last() == (s.last().0, f(s.last().1)));
        lemma_insertion_sorted_map(s.drop_last(), f);
        let r = insertion_sorted(s.drop_last());
        lemma_insert_pos_map(r, s.last(), f);
        lemma_insert_pos_bounds(r, s.last());
        let p = insert_pos(r, s.last()) as int;
        assert(keyed_map(r.insert(p, s.last()), f) =~= keyed_map(r, f).insert(p, (s.last().0, f(s.last().1))));
    }
}

/// Sorts by key, keeping the input order among equal keys.
pub fn stable_sort_by_key<T>(items: Vec<(Dec, T)>) -> (r: Vec<(Dec, T)>)
    requires
        keys_wf(items@),
    ensures
        r@ == insertion_sorted(items@),
        is_stable_sort(r@, items@),
{
    let ghost orig = items@;
    let n = items.len();
    let mut items = items;
    let mut result: Vec<(Dec, T)> = Vec::new();
    let mut i: usize = 0;
    assert(orig.skip(0) =~= orig);
    assert(orig.take(0) =~= Seq::<(Dec, T)>::empty());
    while i < n
        invariant
            n == orig.len(),
            i <= n,
            items@ == orig.skip(i as int),
            keys_wf(orig),
            result@ == insertion_sorted(orig.take(i as int)),
        decreases n - i,
    {
        let x = items.remove(0);
        assert(x == orig[i as int]);
        assert(x.0.wf());
        assert(items@ =~= orig.skip(i + 1));
        proof {
            let p = lemma_insertion_sorted_is_stable(orig.take(i as int));
            assert forall|k: int| 0 <= k < result@.len() implies (#[trigger] result@[k]).0.wf() by {
                assert(result@[k] == orig.take(i as int)[p[k]]);
            }
        }
        let mut j: usize = 0;
        while j < result.len() && result[j].0.at_most(&x.0)
            invariant
                j <= result@.len(),
                x.0.wf(),
                forall|k: int| 0 <= k < result@.len() ==> (#[trigger] result@[k]).0.wf(),
                forall|t: int| 0 <= t < j ==> result@[t].0@ <= x.0@,
            decreases result@.len() - j,
        {
            j = j + 1;
        }
        proof {
            lemma_insert_pos(result@, x, j as nat);
            assert(orig.take(i + 1).drop_last() =~= orig.take(i as int));
            assert(orig.take(i + 1).last() == x);
        }
        result.insert(j, x);
        i = i + 1;
    }
    proof {
        assert(orig.take(n as int) =~= orig);
        let p = lemma_insertion_sorted_is_stable(orig);
    }
    result
}

} // verus!
