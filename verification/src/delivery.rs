//! Which items reached the sink: each one once, and in which order.
//!
//! The source numbers its items `0`, `1`, ... below the item count. What the
//! sink saw is judged by those numbers alone.

use vstd::prelude::*;

verus! {

/// How many items a source with this item count sends.
pub open spec fn item_total(item_count: i32) -> nat {
    if item_count > 0 {
        item_count as nat
    } else {
        0
    }
}

/// Every item below `item_count` occurs in `items`, and none of them twice:
/// `items` has as many entries as there are items, all of them are items,
/// and no two are the same.
pub open spec fn each_once(items: Seq<i32>, item_count: i32) -> bool {
    &&& items.len() == item_total(item_count)
    &&& forall|k: int| 0 <= k < items.len() ==> 0 <= #[trigger] items[k] < item_count
    &&& forall|j: int, k: int| 0 <= j < k < items.len() ==> items[j] != items[k]
}

/// The items stand in the order in which the source sent them.
pub open spec fn counting_up(items: Seq<i32>, item_count: i32) -> bool {
    &&& items.len() == item_total(item_count)
    &&& forall|k: int| 0 <= k < items.len() ==> #[trigger] items[k] == k
}

/// The values that `f` gives for the items `0`, `1`, ... in that order.
pub open spec fn values_in_order(f: spec_fn(i32) -> i32, item_count: i32) -> Seq<i32> {
    Seq::new(item_total(item_count), |i: int| f(i as i32))
}

/// Items in sending order are each there once.
pub proof fn lemma_counting_up_is_each_once(items: Seq<i32>, item_count: i32)
    requires
        counting_up(items, item_count),
    ensures
        each_once(items, item_count),
{
}

/// Where each item is there once, taking out the greatest item leaves each
/// of the others there once.
pub proof fn lemma_each_once_without_top(items: Seq<i32>, item_count: i32, at: int)
    requires
        each_once(items, item_count),
        0 <= at < items.len(),
        items[at] == item_count - 1,
    ensures
        each_once(items.remove(at), (item_count - 1) as i32),
{
    let top = (item_count - 1) as i32;
    let rest = items.remove(at);
    assert forall|k: int| 0 <= k < rest.len() implies 0 <= #[trigger] rest[k] < top by {
        let from = if k < at {
            k
        } else {
            k + 1
        };
        assert(rest[k] == items[from]);
        assert(items[from] != items[at]);
    }
    assert forall|j: int, k: int| 0 <= j < k < rest.len() implies rest[j] != rest[k] by {
        let a = if j < at {
            j
        } else {
            j + 1
        };
        let b = if k < at {
            k
        } else {
            k + 1
        };
        assert(rest[j] == items[a] && rest[k] == items[b]);
    }
}

/// Where each item is there once, every item is there.
pub proof fn lemma_each_once_covers(items: Seq<i32>, item_count: i32)
    requires
        each_once(items, item_count),
    ensures
        forall|i: i32| 0 <= i < item_count ==> items.contains(i),
    decreases item_total(item_count),
{
    if item_count > 0 {
        let top = (item_count - 1) as i32;
        if items.contains(top) {
            let p = choose|p: int| 0 <= p < items.len() && items[p] == top;
            let rest = items.remove(p);
            lemma_each_once_without_top(items, item_count, p);
            lemma_each_once_covers(rest, top);
            assert forall|i: i32| 0 <= i < item_count implies items.contains(i) by {
                if i < top {
                    assert(rest.contains(i));
                    let k = choose|k: int| 0 <= k < rest.len() && rest[k] == i;
                    let from = if k < p {
                        k
                    } else {
                        k + 1
                    };
                    assert(items[from] == i);
                }
            }
        } else {
            // Without the top item, all but the last entry already cover
            // every other item, so the last entry repeats one of them.
            let front = items.drop_last();
            assert(each_once(front, top)) by {
                assert forall|k: int| 0 <= k < front.len() implies 0 <= #[trigger] front[k]
                    < top by {
                    assert(front[k] == items[k]);
                    assert(items.contains(items[k]));
                }
            }
            lemma_each_once_covers(front, top);
            let last = items.last();
            assert(items.contains(last));
            assert(0 <= last < top);
            assert(front.contains(last));
            let k = choose|k: int| 0 <= k < front.len() && front[k] == last;
            assert(items[k] == items[items.len() - 1]);
            assert(false);
        }
    }
}

/// Where each item is there once and each value is what `f` gives for its
/// item, the values are those of all items, each as often as `f` gives it,
/// in whatever order they stand.
pub proof fn lemma_each_once_gives_all(
    items: Seq<i32>,
    values: Seq<i32>,
    f: spec_fn(i32) -> i32,
    item_count: i32,
)
    requires
        each_once(items, item_count),
        values.len() == items.len(),
        forall|k: int| 0 <= k < items.len() ==> values[k] == f(items[k]),
    ensures
        values.to_multiset() == values_in_order(f, item_count).to_multiset(),
    decreases item_total(item_count),
{
    if item_count <= 0 {
        assert(values =~= values_in_order(f, item_count));
    } else {
        let top = (item_count - 1) as i32;
        lemma_each_once_covers(items, item_count);
        assert(items.contains(top));
        let p = choose|p: int| 0 <= p < items.len() && items[p] == top;
        let rest = items.remove(p);
        let rest_values = values.remove(p);
        lemma_each_once_without_top(items, item_count, p);
        assert forall|k: int| 0 <= k < rest.len() implies rest_values[k] == f(rest[k]) by {
            let from = if k < p {
                k
            } else {
                k + 1
            };
            assert(rest[k] == items[from] && rest_values[k] == values[from]);
        }
        lemma_each_once_gives_all(rest, rest_values, f, top);
        let before = values_in_order(f, top);
        let all = values_in_order(f, item_count);
        assert(all =~= before.push(f(top)));
        vstd::seq_lib::to_multiset_build(before, f(top));
        vstd::seq_lib::to_multiset_remove(values, p);
        vstd::seq_lib::to_multiset_contains(values, values[p]);
        assert(values.to_multiset().remove(values[p]).insert(values[p]) =~= values.to_multiset());
    }
}

/// Where the items stand in sending order and each value is what `f` gives
/// for its item, the values stand in that order too.
pub proof fn lemma_counting_up_gives_order(
    items: Seq<i32>,
    values: Seq<i32>,
    f: spec_fn(i32) -> i32,
    item_count: i32,
)
    requires
        counting_up(items, item_count),
        values.len() == items.len(),
        forall|k: int| 0 <= k < items.len() ==> values[k] == f(items[k]),
    ensures
        values == values_in_order(f, item_count),
{
    assert(values =~= values_in_order(f, item_count));
}

/// Decides whether each item is there once.
pub fn delivered_once(items: &Vec<i32>, item_count: i32) -> (ok: bool)
    ensures
        ok == each_once(items@, item_count),
{
    let total: usize = if item_count > 0 {
        item_count as usize
    } else {
        0
    };
    if items.len() != total {
        return false;
    }
    let mut seen: Vec<bool> = vec![false; total];
    let mut k: usize = 0;
    while k < items.len()
        invariant
            k <= items@.len() == total == seen@.len(),
            total == item_total(item_count),
            forall|j: int| 0 <= j < k ==> 0 <= #[trigger] items@[j] < item_count,
            forall|a: int, b: int| 0 <= a < b < k ==> items@[a] != items@[b],
            forall|i: int|
                0 <= i < total ==> (#[trigger] seen@[i] <==> exists|j: int|
                    0 <= j < k && items@[j] == i),
        decreases items@.len() - k,
    {
        let item = items[k];
        if item < 0 || item >= item_count {
            return false;
        }
        if seen[item as usize] {
            proof {
                let j = choose|j: int| 0 <= j < k && items@[j] == item as int;
                assert(items@[j] == items@[k as int]);
            }
            return false;
        }
        proof {
            assert forall|a: int| 0 <= a < k implies items@[a] != items@[k as int] by {
                if items@[a] == item {
                    assert(seen@[item as int]);
                }
            }
        }
        let ghost earlier = seen@;
        seen.set(item as usize, true);
        proof {
            assert forall|i: int| 0 <= i < total implies (#[trigger] seen@[i] <==> exists|j: int|
                0 <= j < k + 1 && items@[j] == i) by {
                if i == item {
                    assert(items@[k as int] == i);
                } else {
                    assert(seen@[i] == earlier[i]);
                    if earlier[i] {
                        let j = choose|j: int| 0 <= j < k && items@[j] == i;
                        assert(0 <= j < k + 1 && items@[j] == i);
                    }
                    if exists|j: int| 0 <= j < k + 1 && items@[j] == i {
                        let j = choose|j: int| 0 <= j < k + 1 && items@[j] == i;
                        assert(j < k);
                    }
                }
            }
        }
        k += 1;
    }
    true
}

/// Decides whether the items stand in sending order.
pub fn delivered_in_order(items: &Vec<i32>, item_count: i32) -> (ok: bool)
    ensures
        ok == counting_up(items@, item_count),
{
    let total: usize = if item_count > 0 {
        item_count as usize
    } else {
        0
    };
    if items.len() != total {
        return false;
    }
    let mut k: usize = 0;
    while k < items.len()
        invariant
            k <= items@.len() == total,
            total == item_total(item_count),
            forall|j: int| 0 <= j < k ==> #[trigger] items@[j] == j,
        decreases items@.len() - k,
    {
        if items[k] < 0 || items[k] as usize != k {
            return false;
        }
        k += 1;
    }
    true
}

} // verus!
