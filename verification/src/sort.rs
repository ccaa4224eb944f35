//! Stable sorting by an integer key.
//!
//! The order is stated over positions: `stable_order(keys)` lists the
//! positions of `keys` by ascending key, equal keys by ascending position.

use vstd::prelude::*;

verus! {

/// Where a new key goes in `order`, a list of positions of `keys` ordered by
/// key: after the last position whose key is not greater than the new one.
pub open spec fn insertion_point(keys: Seq<int>, order: Seq<int>, key: int) -> int
    decreases order.len(),
{
    if order.len() == 0 {
        0
    } else if keys[order.last()] <= key {
        order.len() as int
    } else {
        insertion_point(keys, order.drop_last(), key)
    }
}

/// The positions of `keys` by ascending key, equal keys by ascending position.
pub open spec fn stable_order(keys: Seq<int>) -> Seq<int>
    decreases keys.len(),
{
    if keys.len() == 0 {
        Seq::empty()
    } else {
        let before = stable_order(keys.drop_last());
        before.insert(insertion_point(keys, before, keys.last()), keys.len() - 1)
    }
}

/// `order` holds every position of `keys` once, each key not greater than the
/// next and, where two keys are equal, the earlier position first.
pub open spec fn is_stable_order(order: Seq<int>, keys: Seq<int>) -> bool {
    &&& order.len() == keys.len()
    &&& forall|i: int| 0 <= i < order.len() ==> 0 <= #[trigger] order[i] < keys.len()
    &&& forall|p: int| 0 <= p < keys.len() ==> #[trigger] order.contains(p)
    &&& forall|i: int, j: int|
        0 <= i < j < order.len() ==> keys[#[trigger] order[i]] < keys[#[trigger] order[j]] || (
        keys[order[i]] == keys[order[j]] && order[i] < order[j])
}

/// The items in the given order of positions.
pub open spec fn arranged<T>(items: Seq<T>, order: Seq<int>) -> Seq<T> {
    Seq::new(order.len(), |i: int| items[order[i]])
}

/// The keys of a list of keyed items.
pub open spec fn keys_of<T>(items: Seq<(i128, T)>) -> Seq<int> {
    Seq::new(items.len(), |i: int| items[i].0 as int)
}

/// The items of a list of keyed items.
pub open spec fn values_of<T>(items: Seq<(i128, T)>) -> Seq<T> {
    Seq::new(items.len(), |i: int| items[i].1)
}

/// The insertion point splits an order: no key before it is greater than the
/// new key, every key from it on is.
proof fn insertion_point_splits(keys: Seq<int>, order: Seq<int>, key: int)
    requires
        forall|i: int, j: int|
            0 <= i < j < order.len() ==> keys[#[trigger] order[i]] <= keys[#[trigger] order[j]],
    ensures
        0 <= insertion_point(keys, order, key) <= order.len(),
        forall|i: int|
            0 <= i < insertion_point(keys, order, key) ==> keys[#[trigger] order[i]] <= key,
        forall|i: int|
            insertion_point(keys, order, key) <= i < order.len() ==> keys[#[trigger] order[i]]
                > key,
    decreases order.len(),
{
    if order.len() > 0 && !(keys[order.last()] <= key) {
        let init = order.drop_last();
        assert forall|i: int, j: int| 0 <= i < j < init.len() implies keys[#[trigger] init[i]]
            <= keys[#[trigger] init[j]] by {
            assert(init[i] == order[i] && init[j] == order[j]);
        }
        insertion_point_splits(keys, init, key);
        let at = insertion_point(keys, order, key);
        assert forall|i: int| 0 <= i < at implies keys[#[trigger] order[i]] <= key by {
            assert(init[i] == order[i]);
        }
        assert forall|i: int| at <= i < order.len() implies keys[#[trigger] order[i]] > key by {
            if i < init.len() {
                assert(init[i] == order[i]);
            }
        }
    } else if order.len() > 0 {
        assert forall|i: int| 0 <= i < order.len() implies keys[#[trigger] order[i]] <= key by {
            if i < order.len() - 1 {
                assert(keys[order[i]] <= keys[order[order.len() - 1]]);
            }
        }
    }
}

/// A longer list of keys agrees with its beginning on the positions of the
/// beginning.
proof fn insertion_point_of_prefix(keys: Seq<int>, more: Seq<int>, order: Seq<int>, key: int)
    requires
        keys.len() <= more.len(),
        forall|i: int| 0 <= i < keys.len() ==> keys[i] == more[i],
        forall|i: int| 0 <= i < order.len() ==> 0 <= #[trigger] order[i] < keys.len(),
    ensures
        insertion_point(keys, order, key) == insertion_point(more, order, key),
    decreases order.len(),
{
    if order.len() > 0 {
        assert(0 <= order[order.len() - 1] < keys.len());
        let init = order.drop_last();
        assert forall|i: int| 0 <= i < init.len() implies 0 <= #[trigger] init[i] < keys.len() by {
            assert(init[i] == order[i]);
        }
        insertion_point_of_prefix(keys, more, init, key);
    }
}

/// The positions of `order` are positions of `keys`, by ascending key and,
/// where two keys are equal, in ascending order.
spec fn is_ordered(order: Seq<int>, keys: Seq<int>) -> bool {
    &&& order.len() == keys.len()
    &&& forall|i: int| 0 <= i < order.len() ==> 0 <= #[trigger] order[i] < keys.len()
    &&& forall|i: int, j: int|
        0 <= i < j < order.len() ==> keys[#[trigger] order[i]] < keys[#[trigger] order[j]] || (
        keys[order[i]] == keys[order[j]] && order[i] < order[j])
}

/// The stable order lists positions of the keys by ascending key, and
/// positions of equal keys in ascending order.
proof fn stable_order_is_ordered(keys: Seq<int>)
    ensures
        is_ordered(stable_order(keys), keys),
    decreases keys.len(),
{
    if keys.len() > 0 {
        let init = keys.drop_last();
        stable_order_is_ordered(init);
        let before = stable_order(init);
        let last = keys.len() - 1;
        let key = keys.last();
        assert forall|i: int, j: int| 0 <= i < j < before.len() implies keys[#[trigger] before[i]]
            <= keys[#[trigger] before[j]] by {
            assert(init[before[i]] == keys[before[i]]);
            assert(init[before[j]] == keys[before[j]]);
        }
        insertion_point_of_prefix(init, keys, before, key);
        insertion_point_splits(keys, before, key);
        let at = insertion_point(keys, before, key);
        let after = before.insert(at, last);
        assert(after == stable_order(keys)) by {
            assert(insertion_point(keys, before, key) == insertion_point(init, before, key));
        }
        assert forall|i: int| 0 <= i < after.len() implies 0 <= #[trigger] after[i] < keys.len() by {
            if i < at {
                assert(after[i] == before[i]);
            } else if i > at {
                assert(after[i] == before[i - 1]);
            }
        }
        assert forall|i: int, j: int| 0 <= i < j < after.len() implies keys[#[trigger] after[i]]
            < keys[#[trigger] after[j]] || (keys[after[i]] == keys[after[j]] && after[i]
            < after[j]) by {
            let a = if i < at { i } else { i - 1 };
            let b = if j < at { j } else { j - 1 };
            if i != at && j != at {
                assert(after[i] == before[a] && after[j] == before[b]);
                assert(init[before[a]] == keys[before[a]]);
                assert(init[before[b]] == keys[before[b]]);
            } else if i == at {
                assert(after[j] == before[b]);
                assert(keys[before[b]] > key);
            } else {
                assert(after[i] == before[a]);
                assert(keys[before[a]] <= key);
                assert(before[a] < last);
            }
        }
    }
}

/// The stable order leaves no position out.
proof fn stable_order_is_complete(keys: Seq<int>, position: int)
    requires
        0 <= position < keys.len(),
    ensures
        exists|i: int| 0 <= i < keys.len() && #[trigger] stable_order(keys)[i] == position,
    decreases keys.len(),
{
    let init = keys.drop_last();
    let before = stable_order(init);
    stable_order_is_ordered(init);
    stable_order_is_ordered(keys);
    let key = keys.last();
    assert forall|i: int, j: int| 0 <= i < j < before.len() implies init[#[trigger] before[i]]
        <= init[#[trigger] before[j]] by {}
    insertion_point_splits(init, before, key);
    insertion_point_of_prefix(init, keys, before, key);
    let at = insertion_point(init, before, key);
    let after = stable_order(keys);
    assert(after == before.insert(at, keys.len() - 1));
    if position == keys.len() - 1 {
        assert(after[at] == position);
    } else {
        stable_order_is_complete(init, position);
        let i = choose|i: int| 0 <= i < init.len() && #[trigger] before[i] == position;
        if i < at {
            assert(after[i] == position);
        } else {
            assert(after[i + 1] == position);
        }
    }
}

/// The stable order is a stable order: it holds every position once, by
/// ascending key, positions of equal keys in ascending order.
pub proof fn stable_order_is_stable(keys: Seq<int>)
    ensures
        is_stable_order(stable_order(keys), keys),
{
    stable_order_is_ordered(keys);
    let order = stable_order(keys);
    assert forall|p: int| 0 <= p < keys.len() implies #[trigger] order.contains(p) by {
        stable_order_is_complete(keys, p);
    }
}

/// Two stable orders of the same keys agree on their first `n` positions.
proof fn stable_orders_agree(first: Seq<int>, second: Seq<int>, keys: Seq<int>, n: int)
    requires
        is_stable_order(first, keys),
        is_stable_order(second, keys),
        0 <= n <= keys.len(),
    ensures
        forall|j: int| 0 <= j < n ==> first[j] == second[j],
    decreases n,
{
    if n > 0 {
        stable_orders_agree(first, second, keys, n - 1);
        let i = n - 1;
        let a = first[i];
        let b = second[i];
        if a != b {
            if keys[a] < keys[b] || (keys[a] == keys[b] && a < b) {
                assert(second.contains(a));
                let p = choose|p: int| 0 <= p < second.len() && #[trigger] second[p] == a;
                if p < i {
                    assert(first[p] == second[p]);
                }
            } else {
                assert(first.contains(b));
                let p = choose|p: int| 0 <= p < first.len() && #[trigger] first[p] == b;
                if p < i {
                    assert(first[p] == second[p]);
                }
            }
        }
    }
}

/// There is one stable order of a list of keys.
pub proof fn stable_order_is_unique(order: Seq<int>, keys: Seq<int>)
    requires
        is_stable_order(order, keys),
    ensures
        order == stable_order(keys),
{
    stable_order_is_stable(keys);
    stable_orders_agree(order, stable_order(keys), keys, keys.len() as int);
    assert(order =~= stable_order(keys));
}

/// The items by ascending key. Items with equal keys keep the order in which
/// they came.
pub fn stable_sort_by_key<T>(items: Vec<(i128, T)>) -> (sorted: Vec<T>)
    ensures
        sorted@ == arranged(values_of(items@), stable_order(keys_of(items@))),
{
    let ghost all = items@;
    let ghost keys = keys_of(all);
    let ghost values = values_of(all);
    assert(all.len() == items.len());
    let mut items = items;
    // Turn the list round, so that taking from its end yields it from its start.
    let mut rest_keys: Vec<i128> = Vec::new();
    let mut rest: Vec<T> = Vec::new();
    while items.len() > 0
        invariant
            all.len() <= usize::MAX,
            items@.len() + rest@.len() == all.len(),
            rest_keys@.len() == rest@.len(),
            items@ == all.take(items@.len() as int),
            forall|k: int| 0 <= k < rest@.len() ==> #[trigger] rest@[k] == all[all.len() - 1 - k].1,
            forall|k: int|
                0 <= k < rest@.len() ==> #[trigger] rest_keys@[k] == all[all.len() - 1 - k].0,
        decreases items.len(),
    {
        let ghost n = items@.len();
        let pair = items.pop().unwrap();
        rest_keys.push(pair.0);
        rest.push(pair.1);
        assert(items@ =~= all.take(n - 1));
    }
    let mut sorted_keys: Vec<i128> = Vec::new();
    let mut sorted: Vec<T> = Vec::new();
    let ghost mut order: Seq<int> = Seq::empty();
    let mut done: usize = 0;
    assert(keys.take(0) =~= Seq::<int>::empty());
    while rest.len() > 0
        invariant
            keys == keys_of(all),
            values == values_of(all),
            done + rest@.len() == all.len(),
            all.len() <= usize::MAX,
            order.len() == done,
            rest_keys@.len() == rest@.len(),
            forall|k: int| 0 <= k < rest@.len() ==> #[trigger] rest@[k] == all[all.len() - 1 - k].1,
            forall|k: int|
                0 <= k < rest@.len() ==> #[trigger] rest_keys@[k] == all[all.len() - 1 - k].0,
            order == stable_order(keys.take(done as int)),
            sorted@.len() == done,
            sorted_keys@.len() == done,
            sorted@ == arranged(values, order),
            forall|i: int| 0 <= i < done ==> sorted_keys@[i] == keys[#[trigger] order[i]],
        decreases rest.len(),
    {
        let ghost taken = keys.take(done as int);
        let ghost grown = keys.take(done + 1);
        let key = rest_keys.pop().unwrap();
        let value = rest.pop().unwrap();
        proof {
            assert(key == all[done as int].0);
            assert(value == all[done as int].1);
            assert(grown.drop_last() =~= taken);
            assert(grown.last() == key as int);
            stable_order_is_stable(taken);
            insertion_point_of_prefix(taken, keys, order, key as int);
            insertion_point_of_prefix(taken, grown, order, key as int);
        }
        let mut at: usize = sorted_keys.len();
        proof {
            assert(order.take(at as int) =~= order);
        }
        while at > 0 && sorted_keys[at - 1] > key
            invariant
                at <= done,
                sorted_keys@.len() == done,
                order.len() == done,
                forall|i: int| 0 <= i < done ==> sorted_keys@[i] == keys[#[trigger] order[i]],
                insertion_point(keys, order, key as int) == insertion_point(
                    keys,
                    order.take(at as int),
                    key as int,
                ),
            decreases at,
        {
            proof {
                assert(order.take(at as int).last() == order[at - 1]);
                assert(order.take(at as int).drop_last() =~= order.take(at - 1));
            }
            at = at - 1;
        }
        proof {
            if at > 0 {
                assert(order.take(at as int).last() == order[at - 1]);
            }
            assert(insertion_point(keys, order, key as int) == at);
        }
        sorted_keys.insert(at, key);
        sorted.insert(at, value);
        proof {
            let next = order.insert(at as int, done as int);
            assert(next == stable_order(grown));
            assert forall|i: int| 0 <= i < done + 1 implies sorted_keys@[i] == keys[#[trigger] next[i]] by {
                if i < at {
                    assert(next[i] == order[i]);
                } else if i > at {
                    assert(next[i] == order[i - 1]);
                }
            }
            assert(sorted@ =~= arranged(values, next)) by {
                assert forall|i: int| 0 <= i < done + 1 implies sorted@[i] == values[next[i]] by {
                    if i < at {
                        assert(next[i] == order[i]);
                    } else if i > at {
                        assert(next[i] == order[i - 1]);
                    }
                }
            }
            order = next;
        }
        done = done + 1;
    }
    proof {
        assert(keys.take(done as int) =~= keys);
    }
    sorted
}

} // verus!
