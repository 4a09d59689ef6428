//! Stable ordering of records by a numeric rank, then by a text in code-point order.

use vstd::prelude::*;

verus! {

/// The sort key of a record.
pub struct OrderKey {
    pub rank: i128,
    pub text: Vec<char>,
}

/// Lexicographic order of texts by character code, a prefix first.
pub open spec fn text_le(a: Seq<char>, b: Seq<char>) -> bool
    decreases a.len(),
{
    if a.len() == 0 {
        true
    } else if b.len() == 0 {
        false
    } else if a[0] < b[0] {
        true
    } else if a[0] > b[0] {
        false
    } else {
        text_le(a.skip(1), b.skip(1))
    }
}

/// A sort key as a rank and a text.
pub type KeyView = (int, Seq<char>);

/// The views of a list of keys.
pub open spec fn key_views(keys: Seq<OrderKey>) -> Seq<KeyView> {
    keys.map_values(|k: OrderKey| (k.rank as int, k.text@))
}

/// `a` sorts no later than `b`: by rank, then by text.
pub open spec fn key_le(a: KeyView, b: KeyView) -> bool {
    a.0 < b.0 || (a.0 == b.0 && text_le(a.1, b.1))
}

/// Inserts index `i` into `order` after the leading run of indices whose key sorts no
/// later than key `i`.
pub open spec fn insert_index(order: Seq<int>, keys: Seq<KeyView>, i: int) -> Seq<int>
    decreases order.len(),
{
    if order.len() == 0 {
        seq![i]
    } else if key_le(keys[order[0]], keys[i]) {
        seq![order[0]] + insert_index(order.skip(1), keys, i)
    } else {
        seq![i] + order
    }
}

/// The indices of the first `n` keys in stable insertion order: ascending by key,
/// equal keys in their original order.
pub open spec fn sorted_order(keys: Seq<KeyView>, n: nat) -> Seq<int>
    decreases n,
{
    if n == 0 {
        Seq::empty()
    } else {
        insert_index(sorted_order(keys, (n - 1) as nat), keys, n - 1)
    }
}

/// Whether text `a` sorts no later than text `b`.
pub fn text_le_exec(a: &Vec<char>, b: &Vec<char>) -> (r: bool)
    ensures
        r == text_le(a@, b@),
{
    let mut i: usize = 0;
    assert(a@.skip(0) =~= a@);
    assert(b@.skip(0) =~= b@);
    while i < a.len()
        invariant
            i <= a@.len(),
            i <= b@.len(),
            text_le(a@, b@) == text_le(a@.skip(i as int), b@.skip(i as int)),
        decreases a@.len() - i,
    {
        if i == b.len() {
            return false;
        }
        let ca = a[i];
        let cb = b[i];
        assert(a@.skip(i as int)[0] == a@[i as int]);
        assert(b@.skip(i as int)[0] == b@[i as int]);
        if ca < cb {
            return true;
        }
        if ca > cb {
            return false;
        }
        assert(a@.skip(i as int).skip(1) =~= a@.skip(i + 1));
        assert(b@.skip(i as int).skip(1) =~= b@.skip(i + 1));
        i = i + 1;
    }
    true
}

/// Whether key `a` sorts no later than key `b`.
pub fn key_le_exec(a: &OrderKey, b: &OrderKey) -> (r: bool)
    ensures
        r == key_le((a.rank as int, a.text@), (b.rank as int, b.text@)),
{
    a.rank < b.rank || (a.rank == b.rank && text_le_exec(&a.text, &b.text))
}

proof fn lemma_insert_at(order: Seq<int>, keys: Seq<KeyView>, i: int, j: int)
    requires
        0 <= j <= order.len(),
        forall|k: int| 0 <= k < j ==> key_le(keys[#[trigger] order[k]], keys[i]),
        j < order.len() ==> !key_le(keys[order[j]], keys[i]),
    ensures
        insert_index(order, keys, i) == order.insert(j, i),
    decreases order.len(),
{
    if order.len() == 0 {
        assert(order.insert(j, i) =~= seq![i]);
    } else if j == 0 {
        assert(order.insert(j, i) =~= seq![i] + order);
    } else {
        let rest = order.skip(1);
        assert forall|k: int| 0 <= k < j - 1 implies key_le(keys[#[trigger] rest[k]], keys[i]) by {
            assert(rest[k] == order[k + 1]);
        }
        if j - 1 < rest.len() {
            assert(rest[j - 1] == order[j]);
        }
        lemma_insert_at(rest, keys, i, j - 1);
        assert(key_le(keys[order[0]], keys[i]));
        assert(order.insert(j, i) =~= seq![order[0]] + rest.insert(j - 1, i));
    }
}

/// The positions of `keys` in stable ascending order of key.
pub fn sort_order(keys: &Vec<OrderKey>) -> (r: Vec<usize>)
    ensures
        r@.map_values(|k: usize| k as int) == sorted_order(key_views(keys@), keys@.len()),
{
    let mut order: Vec<usize> = Vec::new();
    let mut i: usize = 0;
    while i < keys.len()
        invariant
            i <= keys@.len(),
            order@.map_values(|k: usize| k as int) == sorted_order(key_views(keys@), i as nat),
            forall|k: int| 0 <= k < order@.len() ==> #[trigger] order@[k] < i,
        decreases keys@.len() - i,
    {
        let ghost view = order@.map_values(|k: usize| k as int);
        let mut j: usize = 0;
        while j < order.len() && key_le_exec(&keys[order[j]], &keys[i])
            invariant
                i < keys@.len(),
                j <= order@.len(),
                view == order@.map_values(|k: usize| k as int),
                forall|k: int| 0 <= k < order@.len() ==> #[trigger] order@[k] < i,
                forall|k: int| 0 <= k < j ==> key_le(key_views(keys@)[#[trigger] view[k]], key_views(keys@)[i as int]),
            decreases order@.len() - j,
        {
            j = j + 1;
        }
        proof {
            if j < order@.len() {
                assert(view[j as int] == order@[j as int] as int);
            }
            lemma_insert_at(view, key_views(keys@), i as int, j as int);
        }
        order.insert(j, i);
        assert(order@.map_values(|k: usize| k as int) =~= view.insert(j as int, i as int));
        i = i + 1;
    }
    order
}

proof fn lemma_insert_index_members(order: Seq<int>, keys: Seq<KeyView>, i: int)
    ensures
        insert_index(order, keys, i).len() == order.len() + 1,
        forall|q: int| 0 <= q < insert_index(order, keys, i).len() ==> {
            let v = #[trigger] insert_index(order, keys, i)[q];
            v == i || exists|m: int| 0 <= m < order.len() && order[m] == v
        },
    decreases order.len(),
{
    if order.len() > 0 && key_le(keys[order[0]], keys[i]) {
        let rest = order.skip(1);
        lemma_insert_index_members(rest, keys, i);
        let ins = insert_index(order, keys, i);
        assert forall|q: int| 0 <= q < ins.len() implies {
            let v = #[trigger] ins[q];
            v == i || exists|m: int| 0 <= m < order.len() && order[m] == v
        } by {
            if q == 0 {
                assert(order[0] == ins[0]);
            } else {
                let v = insert_index(rest, keys, i)[q - 1];
                assert(ins[q] == v);
                if v != i {
                    let m = choose|m: int| 0 <= m < rest.len() && rest[m] == v;
                    assert(order[m + 1] == v);
                }
            }
        }
    } else if order.len() > 0 {
        let ins = insert_index(order, keys, i);
        assert forall|q: int| 0 <= q < ins.len() implies {
            let v = #[trigger] ins[q];
            v == i || exists|m: int| 0 <= m < order.len() && order[m] == v
        } by {
            if q > 0 {
                assert(ins[q] == order[q - 1]);
            }
        }
    }
}

/// Every position in the sorted order of the first `n` keys is below `n`, and there
/// are `n` of them.
pub proof fn lemma_sorted_order_range(keys: Seq<KeyView>, n: nat)
    ensures
        sorted_order(keys, n).len() == n,
        forall|q: int| 0 <= q < n ==> 0 <= #[trigger] sorted_order(keys, n)[q] < n,
    decreases n,
{
    if n > 0 {
        let prev = sorted_order(keys, (n - 1) as nat);
        lemma_sorted_order_range(keys, (n - 1) as nat);
        lemma_insert_index_members(prev, keys, n - 1);
        assert forall|q: int| 0 <= q < n implies 0 <= #[trigger] sorted_order(keys, n)[q] < n by {
            let v = sorted_order(keys, n)[q];
            if v != n - 1 {
                let m = choose|m: int| 0 <= m < prev.len() && prev[m] == v;
                assert(0 <= prev[m] < n - 1);
            }
        }
    }
}

proof fn lemma_insert_index_keeps(order: Seq<int>, keys: Seq<KeyView>, i: int)
    ensures
        insert_index(order, keys, i).contains(i),
        forall|m: int| 0 <= m < order.len() ==> insert_index(order, keys, i).contains(#[trigger] order[m]),
    decreases order.len(),
{
    let ins = insert_index(order, keys, i);
    if order.len() == 0 {
        assert(ins[0] == i);
    } else if key_le(keys[order[0]], keys[i]) {
        let rest = order.skip(1);
        lemma_insert_index_keeps(rest, keys, i);
        let sub = insert_index(rest, keys, i);
        assert(ins == seq![order[0]] + sub);
        let q = choose|q: int| 0 <= q < sub.len() && sub[q] == i;
        assert(ins[q + 1] == i);
        assert forall|m: int| 0 <= m < order.len() implies ins.contains(#[trigger] order[m]) by {
            if m == 0 {
                assert(ins[0] == order[0]);
            } else {
                assert(rest[m - 1] == order[m]);
                let q2 = choose|q2: int| 0 <= q2 < sub.len() && sub[q2] == rest[m - 1];
                assert(ins[q2 + 1] == order[m]);
            }
        }
    } else {
        assert(ins == seq![i] + order);
        assert(ins[0] == i);
        assert forall|m: int| 0 <= m < order.len() implies ins.contains(#[trigger] order[m]) by {
            assert(ins[m + 1] == order[m]);
        }
    }
}

/// Every position below `n` appears in the sorted order of the first `n` keys.
pub proof fn lemma_sorted_order_complete(keys: Seq<KeyView>, n: nat)
    ensures
        forall|v: int| 0 <= v < n ==> #[trigger] sorted_order(keys, n).contains(v),
    decreases n,
{
    if n > 0 {
        let prev = sorted_order(keys, (n - 1) as nat);
        lemma_sorted_order_complete(keys, (n - 1) as nat);
        lemma_insert_index_keeps(prev, keys, n - 1);
        assert forall|v: int| 0 <= v < n implies #[trigger] sorted_order(keys, n).contains(v) by {
            assert(sorted_order(keys, n) == insert_index(prev, keys, n - 1));
            if v < n - 1 {
                assert(prev.contains(v));
                let m = choose|m: int| 0 <= m < prev.len() && prev[m] == v;
                assert(insert_index(prev, keys, n - 1).contains(prev[m]));
            }
        }
    }
}

/// `order` lists positions whose keys never decrease.
pub open spec fn is_sorted_by_key(order: Seq<int>, keys: Seq<KeyView>) -> bool {
    forall|a: int, b: int|
        0 <= a < b < order.len() ==> key_le(#[trigger] keys[order[a]], #[trigger] keys[order[b]])
}

/// Any two texts are ordered one way or the other.
pub proof fn lemma_text_le_total(a: Seq<char>, b: Seq<char>)
    ensures
        text_le(a, b) || text_le(b, a),
    decreases a.len(),
{
    if a.len() > 0 && b.len() > 0 && a[0] == b[0] {
        lemma_text_le_total(a.skip(1), b.skip(1));
    }
}

/// The order of texts is transitive.
pub proof fn lemma_text_le_trans(a: Seq<char>, b: Seq<char>, c: Seq<char>)
    requires
        text_le(a, b),
        text_le(b, c),
    ensures
        text_le(a, c),
    decreases a.len(),
{
    if a.len() > 0 && b.len() > 0 && c.len() > 0 && a[0] == b[0] && b[0] == c[0] {
        lemma_text_le_trans(a.skip(1), b.skip(1), c.skip(1));
    }
}

proof fn lemma_key_le_total(a: KeyView, b: KeyView)
    ensures
        key_le(a, b) || key_le(b, a),
{
    lemma_text_le_total(a.1, b.1);
}

proof fn lemma_key_le_trans(a: KeyView, b: KeyView, c: KeyView)
    requires
        key_le(a, b),
        key_le(b, c),
    ensures
        key_le(a, c),
{
    if a.0 == b.0 && b.0 == c.0 {
        lemma_text_le_trans(a.1, b.1, c.1);
    }
}

proof fn lemma_insert_index_sorted(order: Seq<int>, keys: Seq<KeyView>, i: int)
    requires
        is_sorted_by_key(order, keys),
    ensures
        is_sorted_by_key(insert_index(order, keys, i), keys),
    decreases order.len(),
{
    let ins = insert_index(order, keys, i);
    if order.len() == 0 {
    } else if key_le(keys[order[0]], keys[i]) {
        let rest = order.skip(1);
        assert forall|a: int, b: int| 0 <= a < b < rest.len() implies key_le(
            #[trigger] keys[rest[a]],
            #[trigger] keys[rest[b]],
        ) by {
            assert(keys[rest[a]] == keys[order[a + 1]]);
            assert(keys[rest[b]] == keys[order[b + 1]]);
        }
        lemma_insert_index_sorted(rest, keys, i);
        lemma_insert_index_members(rest, keys, i);
        let sub = insert_index(rest, keys, i);
        assert(ins == seq![order[0]] + sub);
        assert forall|a: int, b: int| 0 <= a < b < ins.len() implies key_le(
            #[trigger] keys[ins[a]],
            #[trigger] keys[ins[b]],
        ) by {
            assert(ins[b] == sub[b - 1]);
            if a > 0 {
                assert(ins[a] == sub[a - 1]);
            } else {
                let v = sub[b - 1];
                if v != i {
                    let m = choose|m: int| 0 <= m < rest.len() && rest[m] == v;
                    assert(rest[m] == order[m + 1]);
                    assert(key_le(keys[order[0]], keys[order[m + 1]]));
                }
            }
        }
    } else {
        assert(ins == seq![i] + order);
        lemma_key_le_total(keys[order[0]], keys[i]);
        assert forall|a: int, b: int| 0 <= a < b < ins.len() implies key_le(
            #[trigger] keys[ins[a]],
            #[trigger] keys[ins[b]],
        ) by {
            assert(ins[b] == order[b - 1]);
            if a > 0 {
                assert(ins[a] == order[a - 1]);
            } else if b > 1 {
                assert(key_le(keys[order[0]], keys[order[b - 1]]));
                lemma_key_le_trans(keys[i], keys[order[0]], keys[order[b - 1]]);
            }
        }
    }
}

/// The order of the first `n` keys is a permutation of the positions below `n` in
/// which the keys never decrease.
pub proof fn lemma_sorted_order_sorted_permutation(keys: Seq<KeyView>, n: nat)
    requires
        n <= keys.len(),
    ensures
        sorted_order(keys, n).len() == n,
        forall|q: int| 0 <= q < n ==> 0 <= #[trigger] sorted_order(keys, n)[q] < n,
        forall|v: int| 0 <= v < n ==> #[trigger] sorted_order(keys, n).contains(v),
        is_sorted_by_key(sorted_order(keys, n), keys),
    decreases n,
{
    lemma_sorted_order_range(keys, n);
    lemma_sorted_order_complete(keys, n);
    if n > 0 {
        lemma_sorted_order_sorted_permutation(keys, (n - 1) as nat);
        lemma_insert_index_sorted(sorted_order(keys, (n - 1) as nat), keys, n - 1);
    }
}

} // verus!
