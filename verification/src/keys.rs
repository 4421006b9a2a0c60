//! Order keys and the key-ordered index that `BTreeMap::from_iter` builds:
//! one entry per key, in key order, holding the last item given for it.

use crate::domain::OrderSide;
use crate::text::{lemma_text_lt_asymmetric, lemma_text_lt_irreflexive, lemma_text_lt_total, lemma_text_lt_transitive, text_equals, text_less, text_lt};
use vstd::prelude::*;

verus! {

/// What identifies an order on the book: side, price and quantity text, and flags.
#[derive(Debug, PartialEq)]
pub struct OrderKey {
    pub side: OrderSide,
    pub price_key: String,
    pub qty_key: String,
    pub reduce_only: bool,
    pub post_only: bool,
}

pub struct OrderKeyView {
    pub side: OrderSide,
    pub price: Seq<char>,
    pub qty: Seq<char>,
    pub reduce_only: bool,
    pub post_only: bool,
}

impl View for OrderKey {
    type V = OrderKeyView;

    open spec fn view(&self) -> OrderKeyView {
        OrderKeyView {
            side: self.side,
            price: self.price_key@,
            qty: self.qty_key@,
            reduce_only: self.reduce_only,
            post_only: self.post_only,
        }
    }
}

impl Clone for OrderKey {
    fn clone(&self) -> (r: Self)
        ensures
            r == *self,
    {
        OrderKey {
            side: self.side,
            price_key: self.price_key.clone(),
            qty_key: self.qty_key.clone(),
            reduce_only: self.reduce_only,
            post_only: self.post_only,
        }
    }
}

pub open spec fn side_rank(s: OrderSide) -> int {
    match s {
        OrderSide::Buy => 0,
        OrderSide::Sell => 1,
    }
}

/// The order `#[derive(Ord)]` gives an order key: field by field, sides in
/// declaration order, strings lexicographically, `false` before `true`.
pub open spec fn key_lt(a: OrderKeyView, b: OrderKeyView) -> bool {
    if a.side != b.side {
        side_rank(a.side) < side_rank(b.side)
    } else if a.price != b.price {
        text_lt(a.price, b.price)
    } else if a.qty != b.qty {
        text_lt(a.qty, b.qty)
    } else if a.reduce_only != b.reduce_only {
        !a.reduce_only
    } else {
        !a.post_only && b.post_only
    }
}

/// No order key comes before itself.
pub proof fn lemma_key_lt_irreflexive(a: OrderKeyView)
    ensures
        !key_lt(a, a),
{
}

/// Of two different order keys, one comes before the other.
pub proof fn lemma_key_lt_total(a: OrderKeyView, b: OrderKeyView)
    ensures
        a == b || key_lt(a, b) || key_lt(b, a),
{
    if a.side == b.side && a.price != b.price {
        lemma_text_lt_total(a.price, b.price);
    }
    if a.side == b.side && a.price == b.price && a.qty != b.qty {
        lemma_text_lt_total(a.qty, b.qty);
    }
    if a.side != b.side {
        assert(side_rank(a.side) != side_rank(b.side));
    }
}

/// When one order key comes before another, the other does not come before it.
pub proof fn lemma_key_lt_asymmetric(a: OrderKeyView, b: OrderKeyView)
    requires
        key_lt(a, b),
    ensures
        !key_lt(b, a),
        a != b,
{
    if a.side == b.side && a.price != b.price {
        lemma_text_lt_asymmetric(a.price, b.price);
    }
    if a.side == b.side && a.price == b.price && a.qty != b.qty {
        lemma_text_lt_asymmetric(a.qty, b.qty);
    }
}

/// The order on keys is transitive.
pub proof fn lemma_key_lt_transitive(a: OrderKeyView, b: OrderKeyView, c: OrderKeyView)
    requires
        key_lt(a, b),
        key_lt(b, c),
    ensures
        key_lt(a, c),
{
    if a.side == b.side && b.side == c.side {
        if a.price != b.price && b.price != c.price {
            lemma_text_lt_transitive(a.price, b.price, c.price);
            if a.price == c.price {
                lemma_text_lt_irreflexive(a.price);
            }
        } else if a.price == b.price && b.price == c.price {
            if a.qty != b.qty && b.qty != c.qty {
                lemma_text_lt_transitive(a.qty, b.qty, c.qty);
                if a.qty == c.qty {
                    lemma_text_lt_irreflexive(a.qty);
                }
            }
        }
    }
}

/// `a == b` on order keys.
pub fn order_key_same(a: &OrderKey, b: &OrderKey) -> (r: bool)
    ensures
        r == (a@ == b@),
{
    a.side == b.side && text_equals(a.price_key.as_str(), b.price_key.as_str()) && text_equals(
        a.qty_key.as_str(),
        b.qty_key.as_str(),
    ) && a.reduce_only == b.reduce_only && a.post_only == b.post_only
}

/// `a < b` on order keys.
pub fn order_key_less(a: &OrderKey, b: &OrderKey) -> (r: bool)
    ensures
        r == key_lt(a@, b@),
{
    if a.side != b.side {
        return a.side == OrderSide::Buy;
    }
    if !text_equals(a.price_key.as_str(), b.price_key.as_str()) {
        return text_less(a.price_key.as_str(), b.price_key.as_str());
    }
    if !text_equals(a.qty_key.as_str(), b.qty_key.as_str()) {
        return text_less(a.qty_key.as_str(), b.qty_key.as_str());
    }
    if a.reduce_only != b.reduce_only {
        return !a.reduce_only;
    }
    !a.post_only && b.post_only
}

/// A key with a strict total order, compared through its view.
pub trait IndexKey: View + Sized {
    spec fn key_lt(a: Self::V, b: Self::V) -> bool;

    fn less(&self, other: &Self) -> (r: bool)
        ensures
            r == Self::key_lt(self@, other@),
    ;

    fn same(&self, other: &Self) -> (r: bool)
        ensures
            r == (self@ == other@),
    ;

    fn copy_key(&self) -> (r: Self)
        ensures
            r@ == self@,
    ;
}

impl IndexKey for OrderKey {
    open spec fn key_lt(a: OrderKeyView, b: OrderKeyView) -> bool {
        key_lt(a, b)
    }

    fn less(&self, other: &Self) -> (r: bool) {
        order_key_less(self, other)
    }

    fn same(&self, other: &Self) -> (r: bool) {
        order_key_same(self, other)
    }

    fn copy_key(&self) -> (r: Self) {
        self.clone()
    }
}

impl IndexKey for String {
    open spec fn key_lt(a: Seq<char>, b: Seq<char>) -> bool {
        text_lt(a, b)
    }

    fn less(&self, other: &Self) -> (r: bool) {
        text_less(self.as_str(), other.as_str())
    }

    fn same(&self, other: &Self) -> (r: bool) {
        text_equals(self.as_str(), other.as_str())
    }

    fn copy_key(&self) -> (r: Self) {
        self.clone()
    }
}

/// The first position in `r` whose key is not below `k`.
pub open spec fn key_pos<K: IndexKey, V>(r: Seq<(K::V, V)>, k: K::V) -> nat
    decreases r.len(),
{
    if r.len() == 0 {
        0
    } else if K::key_lt(r[0].0, k) {
        1 + key_pos::<K, V>(r.drop_first(), k)
    } else {
        0
    }
}

/// Inserting into the index: an entry with the same key takes the new item
/// (and keeps its key); otherwise a new entry goes in key order.
pub open spec fn index_insert<K: IndexKey, V>(r: Seq<(K::V, V)>, x: (K::V, V)) -> Seq<(K::V, V)> {
    let j = key_pos::<K, V>(r, x.0);
    if j < r.len() && r[j as int].0 == x.0 {
        r.update(j as int, (r[j as int].0, x.1))
    } else {
        r.insert(j as int, x)
    }
}

/// The index of a sequence of keyed items, inserted in order.
pub open spec fn key_index<K: IndexKey, V>(s: Seq<(K::V, V)>) -> Seq<(K::V, V)>
    decreases s.len(),
{
    if s.len() == 0 {
        Seq::empty()
    } else {
        index_insert::<K, V>(key_index::<K, V>(s.drop_last()), s.last())
    }
}

pub open spec fn has_key<KV, V>(r: Seq<(KV, V)>, k: KV) -> bool {
    exists|j: int| 0 <= j < r.len() && r[j].0 == k
}

/// The items of the entries of `a` whose key is not in `b`, in `a`'s order.
pub open spec fn entries_without<KV, V, W>(a: Seq<(KV, V)>, b: Seq<(KV, W)>) -> Seq<V>
    decreases a.len(),
{
    if a.len() == 0 {
        Seq::empty()
    } else {
        let p = entries_without(a.drop_last(), b);
        if has_key(b, a.last().0) {
            p
        } else {
            p.push(a.last().1)
        }
    }
}

/// The items of the entries of `a` whose key is in `b`, in `a`'s order.
pub open spec fn entries_with<KV, V, W>(a: Seq<(KV, V)>, b: Seq<(KV, W)>) -> Seq<V>
    decreases a.len(),
{
    if a.len() == 0 {
        Seq::empty()
    } else {
        let p = entries_with(a.drop_last(), b);
        if has_key(b, a.last().0) {
            p.push(a.last().1)
        } else {
            p
        }
    }
}

pub open spec fn pair_views<K: View, T: View>(s: Seq<(K, T)>) -> Seq<(K::V, T::V)> {
    s.map_values(|p: (K, T)| (p.0@, p.1@))
}

/// A position after every smaller key and at no smaller one is where `k` goes in the index.
pub proof fn lemma_key_pos<K: IndexKey, V>(r: Seq<(K::V, V)>, k: K::V, j: nat)
    requires
        j <= r.len(),
        forall|t: int| 0 <= t < j ==> K::key_lt(r[t].0, k),
        j == r.len() || !K::key_lt(r[j as int].0, k),
    ensures
        key_pos::<K, V>(r, k) == j,
    decreases j,
{
    if j > 0 {
        assert forall|t: int| 0 <= t < j - 1 implies K::key_lt(r.drop_first()[t].0, k) by {
            assert(r.drop_first()[t] == r[t + 1]);
        }
        if j < r.len() {
            assert(r.drop_first()[j - 1] == r[j as int]);
        }
        lemma_key_pos::<K, V>(r.drop_first(), k, (j - 1) as nat);
    }
}

/// Builds the index of keyed items.
pub fn build_key_index<K: IndexKey, T: View>(items: Vec<(K, T)>) -> (r: Vec<(K, T)>)
    ensures
        pair_views(r@) == key_index::<K, T::V>(pair_views(items@)),
{
    let ghost orig = items@;
    let n = items.len();
    let mut items = items;
    let mut result: Vec<(K, T)> = Vec::new();
    let mut i: usize = 0;
    assert(orig.skip(0) =~= orig);
    assert(pair_views(orig.take(0)) =~= Seq::<(K::V, T::V)>::empty());
    while i < n
        invariant
            n == orig.len(),
            i <= n,
            items@ == orig.skip(i as int),
            pair_views(result@) == key_index::<K, T::V>(pair_views(orig.take(i as int))),
        decreases n - i,
    {
        let x = items.remove(0);
        assert(x == orig[i as int]);
        assert(items@ =~= orig.skip(i + 1));
        let ghost rv = pair_views(result@);
        assert(pair_views(orig.take(i + 1)).drop_last() =~= pair_views(orig.take(i as int)));
        assert(pair_views(orig.take(i + 1)).last() == (x.0@, x.1@));
        let mut j: usize = 0;
        while j < result.len() && result[j].0.less(&x.0)
            invariant
                j <= result@.len(),
                rv == pair_views(result@),
                forall|t: int| 0 <= t < j ==> K::key_lt(rv[t].0, x.0@),
            decreases result@.len() - j,
        {
            j = j + 1;
        }
        proof {
            lemma_key_pos::<K, T::V>(rv, x.0@, j as nat);
        }
        let (xk, xv) = x;
        if j < result.len() && result[j].0.same(&xk) {
            let kept = result[j].0.copy_key();
            result.set(j, (kept, xv));
            assert(pair_views(result@) =~= rv.update(j as int, (rv[j as int].0, xv@)));
        } else {
            result.insert(j, (xk, xv));
            assert(pair_views(result@) =~= rv.insert(j as int, (xk@, xv@)));
        }
        i = i + 1;
    }
    assert(orig.take(n as int) =~= orig);
    result
}

/// `b` holds an entry with key `k`.
pub fn index_has_key<K: IndexKey, T>(b: &Vec<(K, T)>, k: &K) -> (r: bool)
    ensures
        r == (exists|j: int| 0 <= j < b@.len() && b@[j].0@ == k@),
{
    let mut j: usize = 0;
    while j < b.len()
        invariant
            j <= b@.len(),
            forall|t: int| 0 <= t < j ==> b@[t].0@ != k@,
        decreases b@.len() - j,
    {
        if b[j].0.same(k) {
            return true;
        }
        j = j + 1;
    }
    false
}

/// An index holds a key exactly when one of its entries' keys views as it.
pub proof fn lemma_has_key_views<K: View, T: View>(b: Seq<(K, T)>, k: K::V)
    ensures
        has_key(pair_views(b), k) == (exists|j: int| 0 <= j < b.len() && b[j].0@ == k),
{
    if has_key(pair_views(b), k) {
        let j = choose|j: int| 0 <= j < pair_views(b).len() && pair_views(b)[j].0 == k;
        assert(b[j].0@ == k);
    }
    if exists|j: int| 0 <= j < b.len() && b[j].0@ == k {
        let j = choose|j: int| 0 <= j < b.len() && b[j].0@ == k;
        assert(pair_views(b)[j].0 == k);
    }
}

/// Splits the entries of `a` by whether their key is in `b`, keeping order.
pub fn split_by_keys<K: IndexKey, T: View, U: View>(a: Vec<(K, T)>, b: &Vec<(K, U)>) -> (r: (Vec<T>, Vec<T>))
    ensures
        r.0@.map_values(|t: T| t@) == entries_without(pair_views(a@), pair_views(b@)),
        r.1@.map_values(|t: T| t@) == entries_with(pair_views(a@), pair_views(b@)),
{
    let ghost orig = a@;
    let n = a.len();
    let mut a = a;
    let mut without: Vec<T> = Vec::new();
    let mut with: Vec<T> = Vec::new();
    let mut i: usize = 0;
    assert(orig.skip(0) =~= orig);
    assert(pair_views(orig.take(0)) =~= Seq::<(K::V, T::V)>::empty());
    while i < n
        invariant
            n == orig.len(),
            i <= n,
            a@ == orig.skip(i as int),
            without@.map_values(|t: T| t@) == entries_without(pair_views(orig.take(i as int)), pair_views(b@)),
            with@.map_values(|t: T| t@) == entries_with(pair_views(orig.take(i as int)), pair_views(b@)),
        decreases n - i,
    {
        let x = a.remove(0);
        assert(x == orig[i as int]);
        assert(a@ =~= orig.skip(i + 1));
        assert(pair_views(orig.take(i + 1)).drop_last() =~= pair_views(orig.take(i as int)));
        assert(pair_views(orig.take(i + 1)).last() == (x.0@, x.1@));
        let found = index_has_key(b, &x.0);
        proof {
            lemma_has_key_views(b@, x.0@);
        }
        let (_k, v) = x;
        let ghost before_without = without@.map_values(|t: T| t@);
        let ghost before_with = with@.map_values(|t: T| t@);
        if found {
            with.push(v);
            assert(with@.map_values(|t: T| t@) =~= before_with.push(v@));
        } else {
            without.push(v);
            assert(without@.map_values(|t: T| t@) =~= before_without.push(v@));
        }
        i = i + 1;
    }
    assert(orig.take(n as int) =~= orig);
    (without, with)
}

/// Two keyed sequences with the same keys give indexes that leave nothing
/// out of each other.
pub proof fn lemma_indexes_match<K: IndexKey, V, W>(a: Seq<(K::V, V)>, b: Seq<(K::V, W)>)
    requires
        forall|k: K::V| has_key(a, k) == has_key(b, k),
    ensures
        entries_without(key_index::<K, V>(a), key_index::<K, W>(b)).len() == 0,
        entries_without(key_index::<K, W>(b), key_index::<K, V>(a)).len() == 0,
        entries_with(key_index::<K, W>(b), key_index::<K, V>(a)).len() == key_index::<K, W>(b).len(),
{
    let ia = key_index::<K, V>(a);
    let ib = key_index::<K, W>(b);
    assert forall|j: int| 0 <= j < ia.len() implies has_key(ib, #[trigger] ia[j].0) by {
        lemma_key_index_keys::<K, V>(a, ia[j].0);
        lemma_key_index_keys::<K, W>(b, ia[j].0);
        assert(has_key(ia, ia[j].0));
    }
    assert forall|j: int| 0 <= j < ib.len() implies has_key(ia, #[trigger] ib[j].0) by {
        lemma_key_index_keys::<K, V>(a, ib[j].0);
        lemma_key_index_keys::<K, W>(b, ib[j].0);
        assert(has_key(ib, ib[j].0));
    }
    lemma_entries_without_empty(ia, ib);
    lemma_entries_without_empty(ib, ia);
}

/// Each item left out names an entry of `a` whose key `b` lacks; each entry
/// of `a` whose key `b` lacks is left out.
pub proof fn lemma_entries_without_members<KV, V, W>(a: Seq<(KV, V)>, b: Seq<(KV, W)>)
    ensures
        forall|k: int|
            0 <= k < entries_without(a, b).len() ==> exists|j: int|
                0 <= j < a.len() && a[j].1 == #[trigger] entries_without(a, b)[k] && !has_key(b, a[j].0),
        forall|j: int|
            0 <= j < a.len() && !has_key(b, #[trigger] a[j].0) ==> exists|k: int|
                0 <= k < entries_without(a, b).len() && entries_without(a, b)[k] == a[j].1,
    decreases a.len(),
{
    if a.len() > 0 {
        let p = entries_without(a.drop_last(), b);
        lemma_entries_without_members(a.drop_last(), b);
        assert forall|k: int|
            0 <= k < entries_without(a, b).len() implies exists|j: int|
                0 <= j < a.len() && a[j].1 == #[trigger] entries_without(a, b)[k] && !has_key(b, a[j].0) by {
            if k < p.len() {
                let j = choose|j: int| 0 <= j < a.drop_last().len() && a.drop_last()[j].1 == p[k] && !has_key(b, a.drop_last()[j].0);
                assert(a[j] == a.drop_last()[j]);
            } else {
                assert(a[a.len() - 1] == a.last());
            }
        }
        assert forall|j: int|
            0 <= j < a.len() && !has_key(b, #[trigger] a[j].0) implies exists|k: int|
                0 <= k < entries_without(a, b).len() && entries_without(a, b)[k] == a[j].1 by {
            if j < a.len() - 1 {
                assert(a.drop_last()[j] == a[j]);
                let k = choose|k: int| 0 <= k < p.len() && p[k] == a.drop_last()[j].1;
                assert(entries_without(a, b)[k] == p[k]);
            } else {
                assert(entries_without(a, b)[p.len() as int] == a.last().1);
            }
        }
    }
}

/// Each item kept names an entry of `a` whose key `b` has; each entry of
/// `a` whose key `b` has is kept.
pub proof fn lemma_entries_with_members<KV, V, W>(a: Seq<(KV, V)>, b: Seq<(KV, W)>)
    ensures
        forall|k: int|
            0 <= k < entries_with(a, b).len() ==> exists|j: int|
                0 <= j < a.len() && a[j].1 == #[trigger] entries_with(a, b)[k] && has_key(b, a[j].0),
        forall|j: int|
            0 <= j < a.len() && has_key(b, #[trigger] a[j].0) ==> exists|k: int|
                0 <= k < entries_with(a, b).len() && entries_with(a, b)[k] == a[j].1,
    decreases a.len(),
{
    if a.len() > 0 {
        let p = entries_with(a.drop_last(), b);
        lemma_entries_with_members(a.drop_last(), b);
        assert forall|k: int|
            0 <= k < entries_with(a, b).len() implies exists|j: int|
                0 <= j < a.len() && a[j].1 == #[trigger] entries_with(a, b)[k] && has_key(b, a[j].0) by {
            if k < p.len() {
                let j = choose|j: int| 0 <= j < a.drop_last().len() && a.drop_last()[j].1 == p[k] && has_key(b, a.drop_last()[j].0);
                assert(a[j] == a.drop_last()[j]);
            } else {
                assert(a[a.len() - 1] == a.last());
            }
        }
        assert forall|j: int|
            0 <= j < a.len() && has_key(b, #[trigger] a[j].0) implies exists|k: int|
                0 <= k < entries_with(a, b).len() && entries_with(a, b)[k] == a[j].1 by {
            if j < a.len() - 1 {
                assert(a.drop_last()[j] == a[j]);
                let k = choose|k: int| 0 <= k < p.len() && p[k] == a.drop_last()[j].1;
                assert(entries_with(a, b)[k] == p[k]);
            } else {
                assert(entries_with(a, b)[p.len() as int] == a.last().1);
            }
        }
    }
}

/// Entries keyed by a function of their item stay so in the index.
pub proof fn lemma_key_index_keyed_by<K: IndexKey, V>(s: Seq<(K::V, V)>, f: spec_fn(V) -> K::V)
    requires
        forall|j: int| 0 <= j < s.len() ==> (#[trigger] s[j]).0 == f(s[j].1),
    ensures
        forall|j: int|
            0 <= j < key_index::<K, V>(s).len() ==> (#[trigger] key_index::<K, V>(s)[j]).0 == f(
                key_index::<K, V>(s)[j].1,
            ),
    decreases s.len(),
{
    if s.len() > 0 {
        assert forall|j: int| 0 <= j < s.drop_last().len() implies (#[trigger] s.drop_last()[j]).0 == f(
            s.drop_last()[j].1,
        ) by {
            assert(s.drop_last()[j] == s[j]);
        }
        lemma_key_index_keyed_by::<K, V>(s.drop_last(), f);
        let r = key_index::<K, V>(s.drop_last());
        let x = s.last();
        assert(x == s[s.len() - 1]);
        lemma_key_pos_bound::<K, V>(r, x.0);
    }
}

} // verus!

verus! {

/// After an insertion the index holds the keys it held and the inserted one.
pub proof fn lemma_index_insert_keys<K: IndexKey, V>(r: Seq<(K::V, V)>, x: (K::V, V), k: K::V)
    ensures
        has_key(index_insert::<K, V>(r, x), k) == (has_key(r, k) || k == x.0),
{
    let j = key_pos::<K, V>(r, x.0) as int;
    lemma_key_pos_bound::<K, V>(r, x.0);
    let res = index_insert::<K, V>(r, x);
    if j < r.len() && r[j].0 == x.0 {
        if has_key(r, k) {
            let t = choose|t: int| 0 <= t < r.len() && r[t].0 == k;
            assert(res[t].0 == k);
        }
        if has_key(res, k) {
            let t = choose|t: int| 0 <= t < res.len() && res[t].0 == k;
            assert(r[t].0 == k);
        }
        if k == x.0 {
            assert(res[j].0 == k);
        }
    } else {
        r.insert_ensures(j, x);
        if has_key(r, k) {
            let t = choose|t: int| 0 <= t < r.len() && r[t].0 == k;
            if t < j {
                assert(res[t].0 == k);
            } else {
                assert(res[t + 1].0 == k);
            }
        }
        if has_key(res, k) {
            let t = choose|t: int| 0 <= t < res.len() && res[t].0 == k;
            if t < j {
                assert(r[t].0 == k);
            } else if t > j {
                assert(r[t - 1].0 == k);
            }
        }
        if k == x.0 {
            assert(res[j].0 == k);
        }
    }
}

/// Every entry of an index is one of the entries it was built from.
pub proof fn lemma_key_index_items<K: IndexKey, V>(s: Seq<(K::V, V)>)
    ensures
        forall|j: int|
            0 <= j < key_index::<K, V>(s).len() ==> exists|t: int|
                0 <= t < s.len() && #[trigger] key_index::<K, V>(s)[j] == s[t],
    decreases s.len(),
{
    if s.len() > 0 {
        lemma_key_index_items::<K, V>(s.drop_last());
        let r = key_index::<K, V>(s.drop_last());
        let x = s.last();
        let res = key_index::<K, V>(s);
        let p = key_pos::<K, V>(r, x.0) as int;
        lemma_key_pos_bound::<K, V>(r, x.0);
        assert(s[s.len() - 1] == x);
        if !(p < r.len() && r[p].0 == x.0) {
            r.insert_ensures(p, x);
        }
        assert forall|j: int| 0 <= j < res.len() implies exists|t: int| 0 <= t < s.len() && #[trigger] res[j] == s[t] by {
            if p < r.len() && r[p].0 == x.0 {
                if j == p {
                    assert(res[j] == x);
                } else {
                    assert(res[j] == r[j]);
                    let t = choose|t: int| 0 <= t < s.drop_last().len() && r[j] == s.drop_last()[t];
                    assert(s[t] == s.drop_last()[t]);
                }
            } else {
                if j == p {
                    assert(res[j] == x);
                } else {
                    let i = if j < p {
                        j
                    } else {
                        j - 1
                    };
                    assert(res[j] == r[i]);
                    let t = choose|t: int| 0 <= t < s.drop_last().len() && r[i] == s.drop_last()[t];
                    assert(s[t] == s.drop_last()[t]);
                }
            }
        }
    }
}

/// The position of a key lies within the index.
pub proof fn lemma_key_pos_bound<K: IndexKey, V>(r: Seq<(K::V, V)>, k: K::V)
    ensures
        key_pos::<K, V>(r, k) <= r.len(),
    decreases r.len(),
{
    if r.len() > 0 && K::key_lt(r[0].0, k) {
        lemma_key_pos_bound::<K, V>(r.drop_first(), k);
    }
}

/// The index holds exactly the keys of the items it was built from.
pub proof fn lemma_key_index_keys<K: IndexKey, V>(s: Seq<(K::V, V)>, k: K::V)
    ensures
        has_key(key_index::<K, V>(s), k) == has_key(s, k),
    decreases s.len(),
{
    if s.len() > 0 {
        lemma_key_index_keys::<K, V>(s.drop_last(), k);
        lemma_index_insert_keys::<K, V>(key_index::<K, V>(s.drop_last()), s.last(), k);
        if has_key(s.drop_last(), k) {
            let t = choose|t: int| 0 <= t < s.drop_last().len() && s.drop_last()[t].0 == k;
            assert(s[t].0 == k);
        }
        if k == s.last().0 {
            assert(s[s.len() - 1].0 == k);
        }
        if has_key(s, k) {
            let t = choose|t: int| 0 <= t < s.len() && s[t].0 == k;
            if t < s.len() - 1 {
                assert(s.drop_last()[t].0 == k);
            }
        }
    }
}

/// When every entry's key is in `b`, no entry is left out of it.
pub proof fn lemma_entries_without_empty<KV, V, W>(a: Seq<(KV, V)>, b: Seq<(KV, W)>)
    requires
        forall|j: int| 0 <= j < a.len() ==> has_key(b, #[trigger] a[j].0),
    ensures
        entries_without(a, b).len() == 0,
        entries_with(a, b).len() == a.len(),
    decreases a.len(),
{
    if a.len() > 0 {
        assert forall|j: int| 0 <= j < a.drop_last().len() implies has_key(b, #[trigger] a.drop_last()[j].0) by {
            assert(a.drop_last()[j] == a[j]);
        }
        lemma_entries_without_empty(a.drop_last(), b);
        assert(has_key(b, a[a.len() - 1].0));
    }
}

} // verus!
