use vstd::prelude::*;
use crate::item::{Item, item_valid, valid_items, prefix_value, total_value,
    lemma_prefix_value_nonneg, lemma_prefix_value_mono};
use crate::util::filled_row;

verus! {

/// Best total value achievable using only the first `i` items with total
/// weight at most `j`. This is the mathematical meaning of every table cell.
pub open spec fn knap_value(items: Seq<Item>, i: int, j: int) -> int
    decreases i,
{
    if i <= 0 || j <= 0 {
        0
    } else if items[i - 1].weight as int > j {
        knap_value(items, i - 1, j)
    } else {
        let excl = knap_value(items, i - 1, j);
        let incl = items[i - 1].value as int + knap_value(
            items,
            i - 1,
            j - items[i - 1].weight as int,
        );
        if incl > excl {
            incl
        } else {
            excl
        }
    }
}

/// The 1-based indices of the items chosen by the difference-based backward
/// walk over the table, in ascending order. On equal values the walk prefers
/// to exclude the item.
pub open spec fn knap_selection(items: Seq<Item>, i: int, j: int) -> Seq<int>
    decreases i,
{
    if i <= 0 {
        Seq::empty()
    } else if knap_value(items, i, j) != knap_value(items, i - 1, j) {
        knap_selection(items, i - 1, j - items[i - 1].weight as int).push(i)
    } else {
        knap_selection(items, i - 1, j)
    }
}

/// Total weight of the items named by the 1-based indices in `sel`.
pub open spec fn sel_weight(items: Seq<Item>, sel: Seq<int>) -> int
    decreases sel.len(),
{
    if sel.len() == 0 {
        0
    } else {
        sel_weight(items, sel.drop_last()) + items[sel.last() - 1].weight as int
    }
}

/// Total value of the items named by the 1-based indices in `sel`.
pub open spec fn sel_value(items: Seq<Item>, sel: Seq<int>) -> int
    decreases sel.len(),
{
    if sel.len() == 0 {
        0
    } else {
        sel_value(items, sel.drop_last()) + items[sel.last() - 1].value as int
    }
}

/// The best value is never negative and never exceeds the total value of the
/// items it may draw from.
pub proof fn lemma_knap_value_bounds(items: Seq<Item>, i: int, j: int)
    requires
        valid_items(items),
        0 <= i <= items.len(),
    ensures
        0 <= knap_value(items, i, j),
        knap_value(items, i, j) <= prefix_value(items, i),
    decreases i,
{
    lemma_prefix_value_nonneg(items, i);
    if i > 0 {
        lemma_knap_value_bounds(items, i - 1, j);
        if !(j <= 0) && !(items[i - 1].weight as int > j) {
            lemma_knap_value_bounds(items, i - 1, j - items[i - 1].weight as int);
        }
    }
}

/// Why a solve call rejects its input. Rejection is the only runtime failure
/// left: the backward walk is proved to read a consistent table, so the
/// inconsistency that would otherwise be a fatal defect cannot arise, and no
/// memory budget is enforced on the table.
#[derive(Clone, Copy, Debug, PartialEq, Eq, Structural)]
pub enum KnapsackError {
    /// Some item weight or value is negative, or the capacity is negative.
    InvalidInput,
}

/// What both solvers promise of a result: inputs with a negative capacity,
/// weight or value are rejected whole; on every other input the optimal value
/// and the walked selection come back exactly.
pub open spec fn solve_result_ok(
    items: Seq<Item>,
    capacity: i32,
    r: Result<(i32, Vec<i32>), KnapsackError>,
) -> bool {
    &&& (r is Ok <==> capacity >= 0 && valid_items(items))
    &&& (r matches Ok(p) ==> {
        &&& p.0 as int == knap_value(items, items.len() as int, capacity as int)
        &&& p.1@.map_values(|x: i32| x as int) == knap_selection(
            items,
            items.len() as int,
            capacity as int,
        )
    })
    &&& (r matches Err(e) ==> e == KnapsackError::InvalidInput)
}

/// How one step of the backward walk reads the table: a difference between
/// rows `i` and `i - 1` can only arise where item `i` fits, and it means the
/// optimum at `(i, j)` takes item `i`; equal rows mean it does not.
pub proof fn lemma_selection_step(items: Seq<Item>, i: int, j: int)
    requires
        1 <= i <= items.len(),
    ensures
        knap_value(items, i, j) != knap_value(items, i - 1, j) ==> {
            &&& j >= 1
            &&& items[i - 1].weight as int <= j
            &&& knap_value(items, i, j) == items[i - 1].value as int + knap_value(
                items,
                i - 1,
                j - items[i - 1].weight as int,
            )
            &&& knap_selection(items, i, j) == knap_selection(
                items,
                i - 1,
                j - items[i - 1].weight as int,
            ).push(i)
        },
        knap_value(items, i, j) == knap_value(items, i - 1, j) ==> knap_selection(items, i, j)
            == knap_selection(items, i - 1, j),
{
}

/// Checks the input rule shared by both solvers: a non-negative capacity and
/// non-negative weights and values.
fn check_input(items: &Vec<Item>, capacity: i32) -> (ok: bool)
    ensures
        ok == (capacity >= 0 && valid_items(items@)),
{
    if capacity < 0 {
        return false;
    }
    let mut k: usize = 0;
    while k < items.len()
        invariant
            k <= items@.len(),
            forall|t: int| 0 <= t < k ==> item_valid(items@[t]),
        decreases items@.len() - k,
    {
        if items[k].weight < 0 || items[k].value < 0 {
            proof {
                assert(!item_valid(items@[k as int]));
            }
            return false;
        }
        k += 1;
    }
    true
}

/// The elements of `v` in the opposite order.
fn reversed(v: &Vec<i32>) -> (r: Vec<i32>)
    ensures
        r@ == v@.reverse(),
{
    let mut r: Vec<i32> = Vec::new();
    let mut k: usize = v.len();
    while k > 0
        invariant
            k <= v@.len(),
            r@.len() == v@.len() - k,
            forall|t: int| 0 <= t < r@.len() ==> r@[t] == v@[v@.len() - 1 - t],
        decreases k,
    {
        k -= 1;
        r.push(v[k]);
    }
    proof {
        assert(r@ =~= v@.reverse());
    }
    r
}

/// Solves the 0/1 knapsack problem bottom-up: it fills the whole table of
/// best values for every item prefix and every capacity, reads the optimal
/// value off the last cell, and walks the table backward to recover the
/// 1-based indices of one optimal selection, in ascending order.
///
/// Rejects any input with a negative capacity, weight or value. The bounds in
/// the precondition are forced by the machine: the optimal value and the
/// selected indices are returned as `i32`.
#[verifier::loop_isolation(false)]
pub fn knapsack(items: &Vec<Item>, capacity: i32) -> (r: Result<(i32, Vec<i32>), KnapsackError>)
    requires
        capacity >= 0 && valid_items(items@) ==> total_value(items@) <= i32::MAX
            && items@.len() <= i32::MAX,
    ensures
        solve_result_ok(items@, capacity, r),
{
    if !check_input(items, capacity) {
        return Err(KnapsackError::InvalidInput);
    }
    let ghost iseq = items@;
    let n = items.len();
    let cap = capacity as usize;

    let mut dp: Vec<Vec<i32>> = Vec::new();
    dp.push(filled_row(cap + 1, 0));
    let mut i: usize = 1;
    while i <= n
        invariant
            1 <= i <= n + 1,
            dp@.len() == i,
            forall|a: int| 0 <= a < i ==> (#[trigger] dp@[a]@).len() == cap + 1,
            forall|a: int, b: int| 0 <= a < i && 0 <= b <= cap ==> (#[trigger] dp@[a]@[b]) as int
                == knap_value(iseq, a, b),
        decreases n + 1 - i,
    {
        let w = items[i - 1].weight;
        let v = items[i - 1].value;
        let mut row: Vec<i32> = Vec::new();
        row.push(0);
        let mut j: usize = 1;
        while j <= cap
            invariant
                1 <= j <= cap + 1,
                row@.len() == j,
                dp@.len() == i,
                forall|b: int| 0 <= b < j ==> (#[trigger] row@[b]) as int == knap_value(
                    iseq,
                    i as int,
                    b,
                ),
            decreases cap + 1 - j,
        {
            let prev = dp[i - 1][j];
            if w > j as i32 {
                row.push(prev);
            } else {
                proof {
                    lemma_knap_value_bounds(iseq, i - 1 as int, j - w);
                    lemma_prefix_value_mono(iseq, i as int, iseq.len() as int);
                }
                let inc = v + dp[i - 1][j - (w as usize)];
                let best = if inc > prev {
                    inc
                } else {
                    prev
                };
                row.push(best);
            }
            j += 1;
        }
        dp.push(row);
        i += 1;
    }

    let best = dp[n][cap];

    let mut packed: Vec<i32> = Vec::new();
    let mut bi: usize = n;
    let mut bj: usize = cap;
    while bi > 0
        invariant
            bi <= n,
            bj <= cap,
            forall|t: int| 0 <= t < packed@.len() ==> 1 <= (#[trigger] packed@[t]) <= n,
            knap_selection(iseq, n as int, cap as int) == knap_selection(iseq, bi as int, bj as int)
                + packed@.map_values(|x: i32| x as int).reverse(),
        decreases bi,
    {
        let a = dp[bi][bj];
        let b = dp[bi - 1][bj];
        proof {
            lemma_selection_step(iseq, bi as int, bj as int);
        }
        if a != b {
            let ghost packed0 = packed@;
            packed.push(bi as i32);
            let w = items[bi - 1].weight;
            proof {
                let f = |x: i32| x as int;
                assert(packed@.map_values(f) =~= packed0.map_values(f).push(bi as int));
                assert(packed@.map_values(f).reverse() =~= seq![bi as int]
                    + packed0.map_values(f).reverse());
                assert(knap_selection(iseq, bi - 1 as int, bj - w) + packed@.map_values(f).reverse()
                    =~= knap_selection(iseq, bi as int, bj as int)
                    + packed0.map_values(f).reverse());
            }
            bj -= w as usize;
        }
        bi -= 1;
    }

    let asc = reversed(&packed);
    proof {
        let f = |x: i32| x as int;
        assert(knap_selection(iseq, 0, bj as int) + packed@.map_values(f).reverse()
            =~= packed@.map_values(f).reverse());
        assert(asc@.map_values(f) =~= packed@.map_values(f).reverse());
    }
    Ok((best, asc))
}

/// What the cache must satisfy at all times: one row per item prefix, rows of
/// equal width, and every cell either the untouched sentinel `-1` or the best
/// value for its coordinates. Legal values are never negative, so the
/// sentinel is distinct from every computed entry.
pub open spec fn memo_ok(memo: Seq<Vec<i32>>, items: Seq<Item>) -> bool {
    &&& memo.len() == items.len() + 1
    &&& forall|a: int| 0 <= a < memo.len() ==> (#[trigger] memo[a]@).len() == memo[0]@.len()
    &&& forall|a: int, b: int|
        0 <= a < memo.len() && 0 <= b < memo[a]@.len() ==> (#[trigger] memo[a]@[b]) == -1 || memo[a]@[b] as int
            == knap_value(items, a, b)
}

/// Computes the best value for the first `i` items and capacity `j` top-down,
/// returning a cached answer when one exists and caching the answer
/// otherwise. Base cases are not cached; the sentinel rule of `memo_ok` makes
/// a cached `-1` impossible, so a hit is always a computed value.
#[verifier::loop_isolation(false)]
fn knapsack_memoization_helper(
    items: &Vec<Item>,
    i: usize,
    j: usize,
    memo: &mut Vec<Vec<i32>>,
) -> (r: i32)
    requires
        valid_items(items@),
        total_value(items@) <= i32::MAX,
        i <= items@.len(),
        memo_ok(old(memo)@, items@),
        j < old(memo)@[0]@.len(),
    ensures
        memo_ok(final(memo)@, items@),
        final(memo)@[0]@.len() == old(memo)@[0]@.len(),
        r as int == knap_value(items@, i as int, j as int),
    decreases i,
{
    if i == 0 || j == 0 {
        return 0;
    }
    let cached = memo[i][j];
    if cached != -1 {
        return cached;
    }
    let mut max1 = knapsack_memoization_helper(items, i - 1, j, memo);
    let w = items[i - 1].weight;
    if (w as usize) <= j {
        let max2 = knapsack_memoization_helper(items, i - 1, j - (w as usize), memo);
        proof {
            lemma_knap_value_bounds(items@, i - 1 as int, j - w);
            lemma_prefix_value_mono(items@, i as int, items@.len() as int);
        }
        let cand = max2 + items[i - 1].value;
        if cand > max1 {
            max1 = cand;
        }
    }
    memo[i][j] = max1;
    max1
}

/// Solves the 0/1 knapsack problem top-down: it computes the best value by
/// recursion over item prefix and remaining capacity with a results cache,
/// then walks the cached table backward — reading cells through the cache —
/// to recover the 1-based indices of one optimal selection, in ascending
/// order. Returns exactly what `knapsack` returns on every input.
///
/// Rejects any input with a negative capacity, weight or value. The bounds in
/// the precondition are forced by the machine: the optimal value and the
/// selected indices are returned as `i32`.
#[verifier::loop_isolation(false)]
pub fn knapsack_memoization(items: &Vec<Item>, capacity: i32) -> (r: Result<
    (i32, Vec<i32>),
    KnapsackError,
>)
    requires
        capacity >= 0 && valid_items(items@) ==> total_value(items@) <= i32::MAX
            && items@.len() <= i32::MAX,
    ensures
        solve_result_ok(items@, capacity, r),
{
    if !check_input(items, capacity) {
        return Err(KnapsackError::InvalidInput);
    }
    let ghost iseq = items@;
    let n = items.len();
    let cap = capacity as usize;

    let mut memo: Vec<Vec<i32>> = Vec::new();
    let mut a: usize = 0;
    while a <= n
        invariant
            a <= n + 1,
            memo@.len() == a,
            forall|t: int| 0 <= t < a ==> (#[trigger] memo@[t]@).len() == cap + 1,
            forall|t: int, b: int| 0 <= t < a && 0 <= b <= cap ==> (#[trigger] memo@[t]@[b]) == -1,
        decreases n + 1 - a,
    {
        memo.push(filled_row(cap + 1, -1));
        a += 1;
    }

    let max_value = knapsack_memoization_helper(items, n, cap, &mut memo);

    let mut packed: Vec<i32> = Vec::new();
    let mut bi: usize = n;
    let mut bj: usize = cap;
    while bi > 0
        invariant
            bi <= n,
            bj <= cap,
            memo_ok(memo@, iseq),
            memo@[0]@.len() == cap + 1,
            forall|t: int| 0 <= t < packed@.len() ==> 1 <= (#[trigger] packed@[t]) <= n,
            knap_selection(iseq, n as int, cap as int) == knap_selection(iseq, bi as int, bj as int)
                + packed@.map_values(|x: i32| x as int).reverse(),
        decreases bi,
    {
        let a = knapsack_memoization_helper(items, bi, bj, &mut memo);
        let b = knapsack_memoization_helper(items, bi - 1, bj, &mut memo);
        proof {
            lemma_selection_step(iseq, bi as int, bj as int);
        }
        if a != b {
            let ghost packed0 = packed@;
            packed.push(bi as i32);
            let w = items[bi - 1].weight;
            proof {
                let f = |x: i32| x as int;
                assert(packed@.map_values(f) =~= packed0.map_values(f).push(bi as int));
                assert(packed@.map_values(f).reverse() =~= seq![bi as int]
                    + packed0.map_values(f).reverse());
                assert(knap_selection(iseq, bi - 1 as int, bj - w) + packed@.map_values(f).reverse()
                    =~= knap_selection(iseq, bi as int, bj as int)
                    + packed0.map_values(f).reverse());
            }
            bj -= w as usize;
        }
        bi -= 1;
    }

    let asc = reversed(&packed);
    proof {
        let f = |x: i32| x as int;
        assert(knap_selection(iseq, 0, bj as int) + packed@.map_values(f).reverse()
            =~= packed@.map_values(f).reverse());
        assert(asc@.map_values(f) =~= packed@.map_values(f).reverse());
    }
    Ok((max_value, asc))
}

} // verus!
