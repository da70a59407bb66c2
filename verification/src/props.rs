use vstd::prelude::*;
use crate::item::Item;
use crate::solver::{knap_value, knap_selection, sel_weight, sel_value, lemma_selection_step,
    solve_result_ok, KnapsackError};

verus! {

/// Law: with zero capacity the best value over any prefix of any item
/// sequence is zero and the backward walk selects nothing.
pub proof fn lemma_zero_capacity(items: Seq<Item>, i: int)
    requires
        0 <= i <= items.len(),
    ensures
        knap_value(items, i, 0) == 0,
        knap_selection(items, i, 0) == Seq::<int>::empty(),
    decreases i,
{
    if i > 0 {
        lemma_zero_capacity(items, i - 1);
    }
}

/// Law: with no items to draw from the best value is zero and the backward
/// walk selects nothing, whatever the capacity.
pub proof fn lemma_no_items(items: Seq<Item>, j: int)
    ensures
        knap_value(items, 0, j) == 0,
        knap_selection(items, 0, j) == Seq::<int>::empty(),
{
}

/// Law: the selected indices are strictly ascending, each between 1 and the
/// number of items considered, so none repeats.
pub proof fn lemma_selection_indices(items: Seq<Item>, i: int, j: int)
    requires
        0 <= i <= items.len(),
    ensures
        forall|t: int| 0 <= t < knap_selection(items, i, j).len() ==> 1 <= #[trigger] knap_selection(
            items,
            i,
            j,
        )[t] <= i,
        forall|t1: int, t2: int|
            0 <= t1 < t2 < knap_selection(items, i, j).len() ==> knap_selection(items, i, j)[t1]
                < knap_selection(items, i, j)[t2],
    decreases i,
{
    if i > 0 {
        lemma_selection_step(items, i, j);
        if knap_value(items, i, j) != knap_value(items, i - 1, j) {
            lemma_selection_indices(items, i - 1, j - items[i - 1].weight as int);
        } else {
            lemma_selection_indices(items, i - 1, j);
        }
    }
}

/// Law: the selection fits the capacity — its total weight is at most `j` —
/// and achieves the optimum: its total value equals the best value.
pub proof fn lemma_selection_feasible_and_optimal(items: Seq<Item>, i: int, j: int)
    requires
        0 <= i <= items.len(),
        0 <= j,
    ensures
        sel_weight(items, knap_selection(items, i, j)) <= j,
        sel_value(items, knap_selection(items, i, j)) == knap_value(items, i, j),
    decreases i,
{
    if i > 0 {
        lemma_selection_step(items, i, j);
        if knap_value(items, i, j) != knap_value(items, i - 1, j) {
            let w = items[i - 1].weight as int;
            let sub = knap_selection(items, i - 1, j - w);
            lemma_selection_feasible_and_optimal(items, i - 1, j - w);
            assert(sub.push(i).drop_last() =~= sub);
        } else {
            lemma_selection_feasible_and_optimal(items, i - 1, j);
        }
    }
}

/// Law: the two solving strategies are observably equivalent. Both `knapsack`
/// and `knapsack_memoization` ensure `solve_result_ok`, so any two results
/// they return for the same input accept or reject together and, when they
/// accept, carry the same optimal value and the same selected indices.
pub proof fn lemma_strategies_agree(
    items: Seq<Item>,
    capacity: i32,
    r1: Result<(i32, Vec<i32>), KnapsackError>,
    r2: Result<(i32, Vec<i32>), KnapsackError>,
)
    requires
        solve_result_ok(items, capacity, r1),
        solve_result_ok(items, capacity, r2),
    ensures
        r1 is Ok <==> r2 is Ok,
        r1 matches Ok(p1) ==> (r2 matches Ok(p2) ==> p1.0 == p2.0 && p1.1@ == p2.1@),
{
    if r1 is Ok && r2 is Ok {
        let p1 = r1->Ok_0;
        let p2 = r2->Ok_0;
        let f = |x: i32| x as int;
        assert(p1.1@.map_values(f).len() == p1.1@.len());
        assert(p2.1@.map_values(f).len() == p2.1@.len());
        assert forall|t: int| 0 <= t < p1.1@.len() implies p1.1@[t] == p2.1@[t] by {
            assert(p1.1@.map_values(f)[t] == f(p1.1@[t]));
            assert(p2.1@.map_values(f)[t] == f(p2.1@[t]));
        }
        assert(p1.1@ =~= p2.1@);
    }
}

/// Law: one more unit of capacity never decreases the best value.
pub proof fn lemma_capacity_monotonic(items: Seq<Item>, i: int, j: int)
    requires
        0 <= i <= items.len(),
        0 <= j,
    ensures
        knap_value(items, i, j) <= knap_value(items, i, j + 1),
    decreases i,
{
    if i > 0 {
        lemma_capacity_monotonic(items, i - 1, j);
        let w = items[i - 1].weight as int;
        if w <= j {
            lemma_capacity_monotonic(items, i - 1, j - w);
        }
    }
}

} // verus!

