use vstd::prelude::*;

verus! {

/// One knapsack item: a weight it costs and a value it yields.
pub struct Item {
    pub weight: i32,
    pub value: i32,
}

/// An item is valid when both its weight and its value are non-negative.
pub open spec fn item_valid(it: Item) -> bool {
    it.weight >= 0 && it.value >= 0
}

/// A sequence of items is valid when every item in it is valid.
pub open spec fn valid_items(items: Seq<Item>) -> bool {
    forall|k: int| 0 <= k < items.len() ==> item_valid(items[k])
}

/// Sum of the values of the first `i` items.
pub open spec fn prefix_value(items: Seq<Item>, i: int) -> int
    decreases i,
{
    if i <= 0 {
        0
    } else {
        prefix_value(items, i - 1) + items[i - 1].value as int
    }
}

/// Sum of the values of all items.
pub open spec fn total_value(items: Seq<Item>) -> int {
    prefix_value(items, items.len() as int)
}

pub proof fn lemma_prefix_value_nonneg(items: Seq<Item>, i: int)
    requires
        valid_items(items),
        i <= items.len(),
    ensures
        prefix_value(items, i) >= 0,
    decreases i,
{
    if i > 0 {
        lemma_prefix_value_nonneg(items, i - 1);
    }
}

pub proof fn lemma_prefix_value_mono(items: Seq<Item>, i1: int, i2: int)
    requires
        valid_items(items),
        0 <= i1 <= i2 <= items.len(),
    ensures
        prefix_value(items, i1) <= prefix_value(items, i2),
    decreases i2,
{
    if i1 < i2 {
        lemma_prefix_value_mono(items, i1, i2 - 1);
    }
}

} // verus!
