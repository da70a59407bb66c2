use vstd::prelude::*;
use crate::util::filled_row;

verus! {

/// Fewest coins needed for `amount` under the first strategy's recurrence:
/// zero for a zero amount, else one more than the cheapest reachable smaller
/// amount, where `bound` stands in for "unreachable". An unreachable amount
/// therefore costs `bound + 1`.
pub open spec fn coin_change_value(coins: Seq<i32>, amount: int, bound: int) -> int
    decreases amount, coins.len() as int + 1,
{
    if amount <= 0 {
        0
    } else {
        1 + cc_min_prev(coins, coins.len() as int, amount, bound)
    }
}

/// Cheapest cost among the amounts reachable from `amount` by spending one of
/// the first `k` coins, floored at `bound` when none fits.
pub open spec fn cc_min_prev(coins: Seq<i32>, k: int, amount: int, bound: int) -> int
    decreases amount, k,
{
    if k <= 0 {
        bound
    } else {
        let rest = cc_min_prev(coins, k - 1, amount, bound);
        let c = coins[k - 1] as int;
        if 1 <= c <= amount {
            let sub = coin_change_value(coins, amount - c, bound);
            if sub < rest {
                sub
            } else {
                rest
            }
        } else {
            rest
        }
    }
}

/// Fewest coins needed for `amount` under the second strategy's recurrence:
/// here the "one more coin" step is taken inside the minimum, so an
/// unreachable amount keeps the cost `bound` itself.
pub open spec fn coin_change_2_value(coins: Seq<i32>, amount: int, bound: int) -> int
    decreases amount, coins.len() as int + 1,
{
    if amount <= 0 {
        0
    } else {
        cc2_min_prev(coins, coins.len() as int, amount, bound)
    }
}

/// Cheapest way to finish `amount` with one of the first `k` coins plus the
/// coins for what remains, floored at `bound` when none fits.
pub open spec fn cc2_min_prev(coins: Seq<i32>, k: int, amount: int, bound: int) -> int
    decreases amount, k,
{
    if k <= 0 {
        bound
    } else {
        let rest = cc2_min_prev(coins, k - 1, amount, bound);
        let c = coins[k - 1] as int;
        if 1 <= c <= amount {
            let sub = 1 + coin_change_2_value(coins, amount - c, bound);
            if sub < rest {
                sub
            } else {
                rest
            }
        } else {
            rest
        }
    }
}

proof fn lemma_coin_change_bounds(coins: Seq<i32>, amount: int, bound: int)
    requires
        bound >= 0,
    ensures
        0 <= coin_change_value(coins, amount, bound) <= bound + 1,
    decreases amount, coins.len() as int + 1,
{
    if amount > 0 {
        lemma_cc_min_prev_bounds(coins, coins.len() as int, amount, bound);
    }
}

proof fn lemma_cc_min_prev_bounds(coins: Seq<i32>, k: int, amount: int, bound: int)
    requires
        bound >= 0,
    ensures
        0 <= cc_min_prev(coins, k, amount, bound) <= bound,
    decreases amount, k,
{
    if k > 0 {
        lemma_cc_min_prev_bounds(coins, k - 1, amount, bound);
        let c = coins[k - 1] as int;
        if 1 <= c <= amount {
            lemma_coin_change_bounds(coins, amount - c, bound);
        }
    }
}

proof fn lemma_coin_change_2_bounds(coins: Seq<i32>, amount: int, bound: int)
    requires
        bound >= 0,
    ensures
        0 <= coin_change_2_value(coins, amount, bound) <= bound,
    decreases amount, coins.len() as int + 1,
{
    if amount > 0 {
        lemma_cc2_min_prev_bounds(coins, coins.len() as int, amount, bound);
    }
}

proof fn lemma_cc2_min_prev_bounds(coins: Seq<i32>, k: int, amount: int, bound: int)
    requires
        bound >= 0,
    ensures
        0 <= cc2_min_prev(coins, k, amount, bound) <= bound,
    decreases amount, k,
{
    if k > 0 {
        lemma_cc2_min_prev_bounds(coins, k - 1, amount, bound);
        let c = coins[k - 1] as int;
        if 1 <= c <= amount {
            lemma_coin_change_2_bounds(coins, amount - c, bound);
        }
    }
}

/// Fewest coins from `coins` that sum to `n`, by bottom-up dynamic
/// programming over every amount up to `n`. A result above `n` means `n` is
/// not reachable from the given denominations.
#[verifier::loop_isolation(false)]
pub fn coin_change(coins: Vec<i32>, n: i32) -> (r: i32)
    requires
        0 <= n <= i32::MAX - 2,
        forall|k: int| 0 <= k < coins@.len() ==> #[trigger] coins@[k] >= 1,
    ensures
        r as int == coin_change_value(coins@, n as int, n as int + 1),
{
    let ghost cseq = coins@;
    let ghost bound: int = n as int + 1;
    let mut dp = filled_row(n as usize + 1, n + 1);
    dp[0] = 0;
    let mut i: usize = 1;
    while i <= n as usize
        invariant
            1 <= i <= n + 1,
            dp@.len() == n + 1,
            forall|t: int| 0 <= t < i ==> (#[trigger] dp@[t]) as int == coin_change_value(
                cseq,
                t,
                bound,
            ),
        decreases n + 1 - i,
    {
        let mut temp: i32 = n + 1;
        let mut k: usize = 0;
        while k < coins.len()
            invariant
                k <= cseq.len(),
                0 <= temp <= n + 1,
                temp as int == cc_min_prev(cseq, k as int, i as int, bound),
            decreases cseq.len() - k,
        {
            let c = coins[k];
            if i as i32 >= c {
                proof {
                    lemma_coin_change_bounds(cseq, i - c, bound);
                }
                let prev = dp[i - c as usize];
                if prev < temp {
                    temp = prev;
                }
            }
            k += 1;
        }
        dp[i] = temp + 1;
        i += 1;
    }
    dp[n as usize]
}

/// Fewest coins from `coins` that sum to `n`, by the second bottom-up
/// strategy: each amount's cell is lowered in place, one coin at a time. A
/// result of `n + 1` means `n` is not reachable.
#[verifier::loop_isolation(false)]
pub fn coin_change_2(coins: Vec<i32>, n: i32) -> (r: i32)
    requires
        0 <= n <= i32::MAX - 2,
        forall|k: int| 0 <= k < coins@.len() ==> #[trigger] coins@[k] >= 1,
    ensures
        r as int == coin_change_2_value(coins@, n as int, n as int + 1),
{
    let ghost cseq = coins@;
    let ghost bound: int = n as int + 1;
    let mut dp = filled_row(n as usize + 1, n + 1);
    dp[0] = 0;
    let mut i: usize = 1;
    while i <= n as usize
        invariant
            1 <= i <= n + 1,
            dp@.len() == n + 1,
            forall|t: int| 0 <= t < i ==> (#[trigger] dp@[t]) as int == coin_change_2_value(
                cseq,
                t,
                bound,
            ),
            forall|t: int| i <= t <= n ==> (#[trigger] dp@[t]) == n + 1,
        decreases n + 1 - i,
    {
        let mut k: usize = 0;
        while k < coins.len()
            invariant
                k <= cseq.len(),
                dp@.len() == n + 1,
                0 <= dp@[i as int] <= n + 1,
                dp@[i as int] as int == cc2_min_prev(cseq, k as int, i as int, bound),
                forall|t: int| 0 <= t < i ==> (#[trigger] dp@[t]) as int == coin_change_2_value(
                    cseq,
                    t,
                    bound,
                ),
                forall|t: int| i < t <= n ==> (#[trigger] dp@[t]) == n + 1,
            decreases cseq.len() - k,
        {
            let c = coins[k];
            if i as i32 - c >= 0 {
                proof {
                    lemma_coin_change_2_bounds(cseq, i - c, bound);
                }
                let prev = dp[i - c as usize];
                let cand = prev + 1;
                if cand < dp[i] {
                    dp[i] = cand;
                }
            }
            k += 1;
        }
        i += 1;
    }
    dp[n as usize]
}

} // verus!
