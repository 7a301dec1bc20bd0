//! Stable ordering of items by a key.

use vstd::prelude::*;

use crate::text::{self, to_chars};

verus! {

/// A key that items are ordered by: a total preorder.
pub trait Rank: Sized {
    /// Whether `self` may stand before `other`.
    spec fn le(&self, other: &Self) -> bool;

    proof fn le_total(a: &Self, b: &Self)
        ensures
            a.le(b) || b.le(a),
    ;

    proof fn le_transitive(a: &Self, b: &Self, c: &Self)
        requires
            a.le(b),
            b.le(c),
        ensures
            a.le(c),
    ;

    fn at_most(&self, other: &Self) -> (r: bool)
        ensures
            r == self.le(other),
    ;
}

impl Rank for i64 {
    open spec fn le(&self, other: &Self) -> bool {
        *self <= *other
    }

    proof fn le_total(a: &Self, b: &Self) {
    }

    proof fn le_transitive(a: &Self, b: &Self, c: &Self) {
    }

    fn at_most(&self, other: &Self) -> bool {
        *self <= *other
    }
}

/// The dictionary order of texts by the code points of their characters.
pub open spec fn text_le(a: Seq<char>, b: Seq<char>) -> bool
    decreases a.len(),
{
    if a.len() == 0 {
        true
    } else if b.len() == 0 {
        false
    } else {
        a[0] < b[0] || (a[0] == b[0] && text_le(a.drop_first(), b.drop_first()))
    }
}

/// Of two texts, one comes first in dictionary order.
pub proof fn lemma_text_le_total(a: Seq<char>, b: Seq<char>)
    ensures
        text_le(a, b) || text_le(b, a),
    decreases a.len(),
{
    if a.len() > 0 && b.len() > 0 {
        lemma_text_le_total(a.drop_first(), b.drop_first());
    }
}

/// Dictionary order is transitive.
pub proof fn lemma_text_le_transitive(a: Seq<char>, b: Seq<char>, c: Seq<char>)
    requires
        text_le(a, b),
        text_le(b, c),
    ensures
        text_le(a, c),
    decreases a.len(),
{
    if a.len() > 0 && b.len() > 0 && c.len() > 0 && a[0] == b[0] && b[0] == c[0] {
        lemma_text_le_transitive(a.drop_first(), b.drop_first(), c.drop_first());
    }
}

proof fn lemma_text_le_skip(a: Seq<char>, b: Seq<char>, n: int)
    requires
        0 <= n <= a.len(),
        n <= b.len(),
        forall|j: int| 0 <= j < n ==> a[j] == b[j],
    ensures
        text_le(a, b) == text_le(a.skip(n), b.skip(n)),
    decreases n,
{
    if n > 0 {
        assert forall|j: int| 0 <= j < n - 1 implies a.drop_first()[j] == b.drop_first()[j] by {
            assert(a.drop_first()[j] == a[j + 1]);
            assert(b.drop_first()[j] == b[j + 1]);
        }
        assert(a[0] == b[0]);
        lemma_text_le_skip(a.drop_first(), b.drop_first(), n - 1);
        assert(a.drop_first().skip(n - 1) =~= a.skip(n));
        assert(b.drop_first().skip(n - 1) =~= b.skip(n));
    } else {
        assert(a.skip(0) =~= a);
        assert(b.skip(0) =~= b);
    }
}

/// Whether `a` comes before `b`, or is `b`, in dictionary order.
pub fn text_at_most(a: &str, b: &str) -> (r: bool)
    ensures
        r == text_le(a@, b@),
{
    let x = to_chars(a);
    let y = to_chars(b);
    let mut i: usize = 0;
    while i < x.len() && i < y.len() && x[i] == y[i]
        invariant
            i <= x.len(),
            i <= y.len(),
            forall|j: int| 0 <= j < i ==> x@[j] == y@[j],
        decreases x.len() - i,
    {
        i += 1;
    }
    proof {
        lemma_text_le_skip(a@, b@, i as int);
    }
    if i >= x.len() {
        true
    } else if i >= y.len() {
        false
    } else {
        x[i] < y[i]
    }
}

impl Rank for String {
    open spec fn le(&self, other: &Self) -> bool {
        text_le(self@, other@)
    }

    proof fn le_total(a: &Self, b: &Self) {
        lemma_text_le_total(a@, b@);
    }

    proof fn le_transitive(a: &Self, b: &Self, c: &Self) {
        lemma_text_le_transitive(a@, b@, c@);
    }

    fn at_most(&self, other: &Self) -> bool {
        text_at_most(self.as_str(), other.as_str())
    }
}

/// Whether position `x` goes before position `y`: by key, and by position among equal keys.
pub open spec fn goes_before<K: Rank>(keys: Seq<K>, x: int, y: int) -> bool {
    keys[x].le(&keys[y]) && (keys[y].le(&keys[x]) ==> x < y)
}

/// Whether `order` lists the positions `lo..hi`, each once, by key and stably.
pub open spec fn orders_range<K: Rank>(keys: Seq<K>, lo: int, hi: int, order: Seq<usize>) -> bool {
    &&& forall|i: int| 0 <= i < order.len() ==> lo <= (#[trigger] order[i]) < hi
    &&& forall|i: int, j: int|
        0 <= i < j < order.len() ==> goes_before(
            keys,
            #[trigger] order[i] as int,
            #[trigger] order[j] as int,
        )
    &&& forall|x: int| lo <= x < hi ==> #[trigger] order.contains(x as usize)
}

/// Whether `order` lists the positions of `keys`, each once, in increasing order of key, equal
/// keys in the order of their positions.
pub open spec fn is_stable_order<K: Rank>(keys: Seq<K>, order: Seq<usize>) -> bool {
    &&& order.len() == keys.len()
    &&& orders_range(keys, 0, keys.len() as int, order)
}

/// The positions of `keys` in stable order of key.
pub open spec fn stable_order<K: Rank>(keys: Seq<K>) -> Seq<usize> {
    choose|order: Seq<usize>| is_stable_order(keys, order)
}

proof fn lemma_goes_before_transitive<K: Rank>(keys: Seq<K>, x: int, y: int, z: int)
    requires
        goes_before(keys, x, y),
        goes_before(keys, y, z),
    ensures
        goes_before(keys, x, z),
{
    K::le_transitive(&keys[x], &keys[y], &keys[z]);
    if keys[z].le(&keys[x]) {
        K::le_transitive(&keys[y], &keys[z], &keys[x]);
        K::le_transitive(&keys[z], &keys[x], &keys[y]);
    }
}

/// There is only one stable order.
pub proof fn lemma_stable_order_unique<K: Rank>(keys: Seq<K>, p: Seq<usize>, q: Seq<usize>)
    requires
        is_stable_order(keys, p),
        is_stable_order(keys, q),
        keys.len() <= usize::MAX,
    ensures
        p == q,
{
    assert forall|i: int| 0 <= i < p.len() implies p[i] == q[i] by {
        lemma_same_at(keys, p, q, i);
    }
    assert(p =~= q);
}

proof fn lemma_same_at<K: Rank>(keys: Seq<K>, p: Seq<usize>, q: Seq<usize>, i: int)
    requires
        is_stable_order(keys, p),
        is_stable_order(keys, q),
        keys.len() <= usize::MAX,
        0 <= i < p.len(),
    ensures
        p[i] == q[i],
    decreases i,
{
    assert forall|j: int| 0 <= j < i implies p[j] == q[j] by {
        lemma_same_at(keys, p, q, j);
    }
    assert(q.contains(p[i] as int as usize));
    assert(p.contains(q[i] as int as usize));
    let b = choose|b: int| 0 <= b < q.len() && q[b] == p[i];
    let a = choose|a: int| 0 <= a < p.len() && p[a] == q[i];
    if b < i {
        assert(p[b] == p[i]);
        assert(goes_before(keys, p[b] as int, p[i] as int));
    }
    if a < i {
        assert(q[a] == q[i]);
        assert(goes_before(keys, q[a] as int, q[i] as int));
    }
    if b > i && a > i {
        assert(goes_before(keys, q[i] as int, q[b] as int));
        assert(goes_before(keys, p[i] as int, p[a] as int));
    }
}

/// A stable order found is the stable order.
pub proof fn lemma_is_the_stable_order<K: Rank>(keys: Seq<K>, order: Seq<usize>)
    requires
        is_stable_order(keys, order),
        keys.len() <= usize::MAX,
    ensures
        order == stable_order(keys),
{
    lemma_stable_order_unique(keys, order, stable_order(keys));
}

/// `order` with the position `x` put in behind every position whose key may stand before its own.
spec fn put_in<K: Rank>(keys: Seq<K>, order: Seq<usize>, x: usize) -> Seq<usize>
    decreases order.len(),
{
    if order.len() == 0 || keys[order.last() as int].le(&keys[x as int]) {
        order.push(x)
    } else {
        put_in(keys, order.drop_last(), x).push(order.last())
    }
}

proof fn lemma_put_in<K: Rank>(keys: Seq<K>, order: Seq<usize>, x: usize)
    requires
        x < keys.len(),
        forall|i: int| 0 <= i < order.len() ==> (#[trigger] order[i]) < x,
        forall|i: int, j: int|
            0 <= i < j < order.len() ==> goes_before(
                keys,
                #[trigger] order[i] as int,
                #[trigger] order[j] as int,
            ),
    ensures
        put_in(keys, order, x).len() == order.len() + 1,
        forall|y: usize|
            #[trigger] put_in(keys, order, x).contains(y) <==> y == x || order.contains(y),
        forall|i: int, j: int|
            0 <= i < j < order.len() + 1 ==> goes_before(
                keys,
                #[trigger] put_in(keys, order, x)[i] as int,
                #[trigger] put_in(keys, order, x)[j] as int,
            ),
    decreases order.len(),
{
    let r = put_in(keys, order, x);
    if order.len() == 0 || keys[order.last() as int].le(&keys[x as int]) {
        assert forall|y: usize| #[trigger] r.contains(y) <==> y == x || order.contains(y) by {
            assert(r[order.len() as int] == x);
            if order.contains(y) {
                let k = choose|k: int| 0 <= k < order.len() && order[k] == y;
                assert(r[k] == y);
            }
        }
        assert forall|i: int, j: int| 0 <= i < j < r.len() implies goes_before(
            keys,
            #[trigger] r[i] as int,
            #[trigger] r[j] as int,
        ) by {
            if j == order.len() {
                let last = order.last() as int;
                assert(goes_before(keys, last, x as int));
                if i < order.len() - 1 {
                    assert(goes_before(keys, order[i] as int, order[order.len() - 1] as int));
                    lemma_goes_before_transitive(keys, order[i] as int, last, x as int);
                }
            }
        }
    } else {
        let t = order.drop_last();
        let rest = put_in(keys, t, x);
        assert forall|i: int| 0 <= i < t.len() implies (#[trigger] t[i]) < x by {
            assert(order[i] == t[i]);
        }
        assert forall|i: int, j: int| 0 <= i < j < t.len() implies goes_before(
            keys,
            #[trigger] t[i] as int,
            #[trigger] t[j] as int,
        ) by {
            assert(goes_before(keys, order[i] as int, order[j] as int));
        }
        lemma_put_in(keys, t, x);
        let last = order.last();
        K::le_total(&keys[last as int], &keys[x as int]);
        assert(goes_before(keys, x as int, last as int));
        assert forall|y: usize| #[trigger] r.contains(y) <==> y == x || order.contains(y) by {
            assert(r[rest.len() as int] == last);
            assert(order[t.len() as int] == last);
            if rest.contains(y) {
                let k = choose|k: int| 0 <= k < rest.len() && rest[k] == y;
                assert(r[k] == y);
            }
            if t.contains(y) {
                let k = choose|k: int| 0 <= k < t.len() && t[k] == y;
                assert(order[k] == y);
            }
            if r.contains(y) && y != last {
                let k = choose|k: int| 0 <= k < r.len() && r[k] == y;
                assert(rest[k] == y);
                assert(rest.contains(y));
            }
            if order.contains(y) && y != last {
                let k = choose|k: int| 0 <= k < order.len() && order[k] == y;
                assert(t[k] == y);
                assert(t.contains(y));
                assert(rest.contains(y));
            }
            if y == x {
                assert(rest.contains(y));
            }
        }
        assert forall|i: int, j: int| 0 <= i < j < r.len() implies goes_before(
            keys,
            #[trigger] r[i] as int,
            #[trigger] r[j] as int,
        ) by {
            if j == rest.len() {
                let y = rest[i];
                assert(rest.contains(y));
                if y != x {
                    let k = choose|k: int| 0 <= k < t.len() && t[k] == y;
                    assert(goes_before(keys, order[k] as int, order[t.len() as int] as int));
                }
            }
        }
    }
}

proof fn lemma_range_has_order<K: Rank>(keys: Seq<K>, n: nat) -> (p: Seq<usize>)
    requires
        n <= keys.len(),
        keys.len() <= usize::MAX,
    ensures
        p.len() == n,
        orders_range(keys, 0, n as int, p),
    decreases n,
{
    if n == 0 {
        Seq::empty()
    } else {
        let x = (n - 1) as usize;
        let q = lemma_range_has_order(keys, (n - 1) as nat);
        lemma_put_in(keys, q, x);
        let p = put_in(keys, q, x);
        assert forall|i: int| 0 <= i < p.len() implies 0 <= (#[trigger] p[i]) < n by {
            assert(p.contains(p[i]));
            if p[i] != x {
                let k = choose|k: int| 0 <= k < q.len() && q[k] == p[i];
                assert(q[k] < n);
            }
        }
        assert forall|y: int| 0 <= y < n implies #[trigger] p.contains(y as usize) by {
            if y < n - 1 {
                assert(q.contains(y as usize));
            }
        }
        p
    }
}

/// Every list of keys has its stable order.
pub proof fn lemma_stable_order_exists<K: Rank>(keys: Seq<K>)
    requires
        keys.len() <= usize::MAX,
    ensures
        is_stable_order(keys, stable_order(keys)),
{
    let p = lemma_range_has_order(keys, keys.len());
    assert(is_stable_order(keys, p));
}

fn merge<K: Rank>(
    keys: &Vec<K>,
    left: &Vec<usize>,
    right: &Vec<usize>,
    Ghost(lo): Ghost<int>,
    Ghost(mid): Ghost<int>,
    Ghost(hi): Ghost<int>,
) -> (r: Vec<usize>)
    requires
        0 <= lo <= mid <= hi <= keys.len(),
        left.len() == mid - lo,
        right.len() == hi - mid,
        orders_range(keys@, lo, mid, left@),
        orders_range(keys@, mid, hi, right@),
    ensures
        r.len() == hi - lo,
        orders_range(keys@, lo, hi, r@),
{
    let mut r: Vec<usize> = Vec::new();
    let mut i: usize = 0;
    let mut j: usize = 0;
    while i < left.len() || j < right.len()
        invariant
            0 <= lo <= mid <= hi <= keys.len(),
            left.len() == mid - lo,
            right.len() == hi - mid,
            orders_range(keys@, lo, mid, left@),
            orders_range(keys@, mid, hi, right@),
            i <= left.len(),
            j <= right.len(),
            r.len() == i + j,
            forall|a: int| 0 <= a < r.len() ==> lo <= (#[trigger] r@[a]) < hi,
            forall|a: int, b: int|
                0 <= a < b < r.len() ==> goes_before(
                    keys@,
                    #[trigger] r@[a] as int,
                    #[trigger] r@[b] as int,
                ),
            forall|a: int, b: int|
                0 <= a < r.len() && i <= b < left.len() ==> goes_before(
                    keys@,
                    #[trigger] r@[a] as int,
                    #[trigger] left@[b] as int,
                ),
            forall|a: int, b: int|
                0 <= a < r.len() && j <= b < right.len() ==> goes_before(
                    keys@,
                    #[trigger] r@[a] as int,
                    #[trigger] right@[b] as int,
                ),
            forall|a: int| 0 <= a < i ==> r@.contains(#[trigger] left@[a]),
            forall|a: int| 0 <= a < j ==> r@.contains(#[trigger] right@[a]),
        decreases left.len() - i + right.len() - j,
    {
        let take_left: bool = if i >= left.len() {
            false
        } else if j >= right.len() {
            true
        } else {
            keys[left[i]].at_most(&keys[right[j]])
        };
        let ghost before = r@;
        if take_left {
            r.push(left[i]);
            proof {
                let x = left@[i as int] as int;
                assert forall|b: int| j <= b < right.len() implies goes_before(
                    keys@,
                    x,
                    #[trigger] right@[b] as int,
                ) by {
                    if j < right.len() {
                        assert(goes_before(keys@, x, right@[j as int] as int));
                        if b > j {
                            lemma_goes_before_transitive(
                                keys@,
                                x,
                                right@[j as int] as int,
                                right@[b] as int,
                            );
                        }
                    }
                }
                assert(r@[r@.len() - 1] == left@[i as int]);
            }
            i += 1;
        } else {
            r.push(right[j]);
            proof {
                let x = right@[j as int] as int;
                assert forall|b: int| i <= b < left.len() implies goes_before(
                    keys@,
                    x,
                    #[trigger] left@[b] as int,
                ) by {
                    if i < left.len() {
                        let y = left@[i as int] as int;
                        K::le_total(&keys@[x], &keys@[y]);
                        assert(goes_before(keys@, x, y));
                        if b > i {
                            lemma_goes_before_transitive(keys@, x, y, left@[b] as int);
                        }
                    }
                }
                assert(r@[r@.len() - 1] == right@[j as int]);
            }
            j += 1;
        }
        proof {
            assert forall|a: int| 0 <= a < i implies r@.contains(#[trigger] left@[a]) by {
                if before.contains(left@[a]) {
                    let k = choose|k: int| 0 <= k < before.len() && before[k] == left@[a];
                    assert(r@[k] == left@[a]);
                } else {
                    assert(r@[r@.len() - 1] == left@[a]);
                }
            }
            assert forall|a: int| 0 <= a < j implies r@.contains(#[trigger] right@[a]) by {
                if before.contains(right@[a]) {
                    let k = choose|k: int| 0 <= k < before.len() && before[k] == right@[a];
                    assert(r@[k] == right@[a]);
                } else {
                    assert(r@[r@.len() - 1] == right@[a]);
                }
            }
        }
    }
    proof {
        assert forall|x: int| lo <= x < hi implies #[trigger] r@.contains(x as usize) by {
            if x < mid {
                assert(left@.contains(x as usize));
                let a = choose|a: int| 0 <= a < left@.len() && left@[a] == x as usize;
                assert(r@.contains(left@[a]));
            } else {
                assert(right@.contains(x as usize));
                let a = choose|a: int| 0 <= a < right@.len() && right@[a] == x as usize;
                assert(r@.contains(right@[a]));
            }
        }
    }
    r
}

fn order_range<K: Rank>(keys: &Vec<K>, lo: usize, hi: usize) -> (r: Vec<usize>)
    requires
        lo <= hi <= keys.len(),
    ensures
        r.len() == hi - lo,
        orders_range(keys@, lo as int, hi as int, r@),
    decreases hi - lo,
{
    if hi - lo <= 1 {
        let mut r: Vec<usize> = Vec::new();
        if lo < hi {
            r.push(lo);
            proof {
                assert(r@[0] == lo);
            }
        }
        r
    } else {
        let mid: usize = lo + (hi - lo) / 2;
        let left = order_range(keys, lo, mid);
        let right = order_range(keys, mid, hi);
        merge(keys, &left, &right, Ghost(lo as int), Ghost(mid as int), Ghost(hi as int))
    }
}

/// Lists the positions of `keys` in increasing order of key; equal keys stay as they stood.
pub fn order_by<K: Rank>(keys: &Vec<K>) -> (r: Vec<usize>)
    ensures
        is_stable_order(keys@, r@),
        r@ == stable_order(keys@),
{
    let r = order_range(keys, 0, keys.len());
    proof {
        lemma_is_the_stable_order(keys@, r@);
    }
    r
}

/// Texts in dictionary order.
pub open spec fn in_order(names: Seq<String>) -> Seq<Seq<char>> {
    stable_order(names).map_values(|i: usize| names[i as int]@)
}

/// The texts in dictionary order.
pub fn sort_texts(names: &Vec<String>) -> (r: Vec<String>)
    ensures
        text::texts(r@) == in_order(names@),
        r.len() == names.len(),
{
    let places = order_by(names);
    let mut r: Vec<String> = Vec::new();
    let mut i: usize = 0;
    while i < places.len()
        invariant
            i <= places.len(),
            is_stable_order(names@, places@),
            r.len() == i,
            forall|j: int| 0 <= j < i ==> (#[trigger] r@[j])@ == names@[places@[j] as int]@,
        decreases places.len() - i,
    {
        let p: usize = places[i];
        r.push(names[p].clone());
        i += 1;
    }
    proof {
        assert(text::texts(r@) =~= in_order(names@));
    }
    r
}

/// Sorting texts puts none behind a smaller one, and neither adds nor drops any.
pub proof fn law_in_order_is_sorted(names: Seq<String>)
    requires
        names.len() <= usize::MAX,
    ensures
        in_order(names).len() == names.len(),
        forall|i: int, j: int|
            0 <= i < j < names.len() ==> text_le(
                #[trigger] in_order(names)[i],
                #[trigger] in_order(names)[j],
            ),
        forall|t: Seq<char>|
            #[trigger] in_order(names).contains(t) <==> text::texts(names).contains(t),
{
    lemma_stable_order_exists(names);
    let p = stable_order(names);
    let r = in_order(names);
    assert forall|i: int, j: int| 0 <= i < j < names.len() implies text_le(
        #[trigger] r[i],
        #[trigger] r[j],
    ) by {
        assert(goes_before(names, p[i] as int, p[j] as int));
    }
    assert forall|t: Seq<char>| #[trigger] r.contains(t) <==> text::texts(names).contains(t) by {
        if r.contains(t) {
            let i = choose|i: int| 0 <= i < r.len() && r[i] == t;
            assert(0 <= p[i] < names.len());
            assert(text::texts(names)[p[i] as int] == t);
        }
        if text::texts(names).contains(t) {
            let k = choose|k: int|
                0 <= k < text::texts(names).len() && text::texts(names)[k] == t;
            assert(p.contains(k as usize));
            let i = choose|i: int| 0 <= i < p.len() && p[i] == k as usize;
            assert(r[i] == t);
        }
    }
}

} // verus!
