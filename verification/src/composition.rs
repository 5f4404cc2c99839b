//! A population's composition as whole agents: how many play each strategy,
//! and the population laid out from such counts.
//!
//! Counting is exact integer work, so a share is only ever a count divided
//! by the population size, and a recorded generation is a distribution
//! because its counts add up to the population.

use crate::types::StrategyId;
use vstd::prelude::*;

verus! {

/// The raw strategy of every agent.
pub open spec fn ids(agents: Seq<StrategyId>) -> Seq<u8> {
    agents.map_values(|a: StrategyId| a@)
}

/// How many of `xs` are strategy `s`.
pub open spec fn count_of(xs: Seq<u8>, s: int) -> nat
    decreases xs.len(),
{
    if xs.len() == 0 {
        0
    } else {
        count_of(xs.drop_last(), s) + if xs.last() as int == s {
            1nat
        } else {
            0nat
        }
    }
}

/// `row` counts, strategy by strategy, how many of `xs` play it.
pub open spec fn is_tally(row: Seq<usize>, xs: Seq<u8>) -> bool {
    forall|s: int| 0 <= s < row.len() ==> #[trigger] row[s] == count_of(xs, s)
}

/// The sum of a sequence of counts.
pub open spec fn sum(xs: Seq<usize>) -> int
    decreases xs.len(),
{
    if xs.len() == 0 {
        0
    } else {
        sum(xs.drop_last()) + xs.last()
    }
}

/// `count` agents, all playing `s`.
pub open spec fn repeat(count: nat, s: u8) -> Seq<u8> {
    Seq::new(count, |i: int| s)
}

/// The blocked layout of a population with `counts[s]` agents on strategy
/// `s`: all of strategy 0, then all of strategy 1, and so on.
pub open spec fn layout(counts: Seq<usize>) -> Seq<u8>
    decreases counts.len(),
{
    if counts.len() == 0 {
        seq![]
    } else {
        layout(counts.drop_last()) + repeat(counts.last() as nat, (counts.len() - 1) as u8)
    }
}

/// How many of the first `k` ranked strategies are `s`.
pub open spec fn bonus(ranking: Seq<usize>, k: int, s: int) -> nat
    decreases k,
{
    if k <= 0 {
        0
    } else {
        bonus(ranking, k - 1, s) + if ranking[k - 1] as int == s {
            1nat
        } else {
            0nat
        }
    }
}

/// `ranking` lists each of the strategies `0..n` exactly once.
pub open spec fn is_ranking_of(ranking: Seq<usize>, n: nat) -> bool {
    &&& ranking.len() == n
    &&& n >= 1
    &&& forall|i: int| 0 <= i < n ==> #[trigger] ranking[i] < n
    &&& forall|i: int, j: int| 0 <= i < j < n ==> #[trigger] ranking[i] != #[trigger] ranking[j]
}

/// Every strategy `0..n` appears somewhere in `ranking`.
pub open spec fn covers(ranking: Seq<usize>, n: nat) -> bool {
    forall|s: int| 0 <= s < n ==> #[trigger] ranking.contains(s as usize)
}

/// Takes up to `excess` agents away, visiting the ranked strategies from the
/// last ranked (smallest remainder) backwards, each giving up as many of its
/// agents as are still owed.
pub open spec fn trim_from(counts: Seq<usize>, ranking: Seq<usize>, k: int, excess: int) -> Seq<usize>
    decreases k,
{
    if k <= 0 || excess <= 0 {
        counts
    } else {
        let s = ranking[k - 1] as int;
        let t = if counts[s] <= excess {
            counts[s] as int
        } else {
            excess
        };
        trim_from(counts.update(s, (counts[s] - t) as usize), ranking, k - 1, excess - t)
    }
}

/// The whole counts after settling `floors` against `population`.
///
/// A shortfall is handed out one agent at a time down the ranking, cycling
/// through it as often as needed: every pass gives each ranked strategy one
/// agent, and the last, partial pass gives one to each of the first
/// `shortfall % len` ranked strategies. An excess is taken back from the end
/// of the ranking.
pub open spec fn settled(floors: Seq<usize>, ranking: Seq<usize>, population: int) -> Seq<usize> {
    let total = sum(floors);
    let len = ranking.len() as int;
    if total <= population {
        if len == 0 {
            floors
        } else {
            let shortfall = population - total;
            Seq::new(
                floors.len(),
                |s: int|
                    (floors[s] + (shortfall / len) * bonus(ranking, len, s) + bonus(
                        ranking,
                        shortfall % len,
                        s,
                    )) as usize,
            )
        }
    } else {
        trim_from(floors, ranking, len, total - population)
    }
}

/// Counting splits over concatenation.
pub proof fn lemma_count_of_append(a: Seq<u8>, b: Seq<u8>, s: int)
    ensures
        count_of(a + b, s) == count_of(a, s) + count_of(b, s),
    decreases b.len(),
{
    if b.len() == 0 {
        assert(a + b =~= a);
    } else {
        lemma_count_of_append(a, b.drop_last(), s);
        assert((a + b).drop_last() =~= a + b.drop_last());
    }
}

/// A block of one strategy counts only towards that strategy.
pub proof fn lemma_count_of_repeat(count: nat, v: u8, s: int)
    ensures
        count_of(repeat(count, v), s) == if v as int == s {
            count
        } else {
            0
        },
    decreases count,
{
    if count > 0 {
        lemma_count_of_repeat((count - 1) as nat, v, s);
        assert(repeat(count, v).drop_last() =~= repeat((count - 1) as nat, v));
    }
}

/// No strategy is counted more often than there are agents.
pub proof fn lemma_count_of_bounded(xs: Seq<u8>, s: int)
    ensures
        count_of(xs, s) <= xs.len(),
    decreases xs.len(),
{
    if xs.len() > 0 {
        lemma_count_of_bounded(xs.drop_last(), s);
    }
}

/// Extending a population by one agent adds one to its strategy's count.
pub proof fn lemma_count_of_push(xs: Seq<u8>, x: u8, s: int)
    ensures
        count_of(xs.push(x), s) == count_of(xs, s) + if x as int == s {
            1nat
        } else {
            0nat
        },
{
    assert(xs.push(x).drop_last() =~= xs);
}

/// Raising one count by `v - xs[j]` raises the sum by the same.
pub proof fn lemma_sum_update(xs: Seq<usize>, j: int, v: usize)
    requires
        0 <= j < xs.len(),
    ensures
        sum(xs.update(j, v)) == sum(xs) - xs[j] + v,
    decreases xs.len(),
{
    if j == xs.len() - 1 {
        assert(xs.update(j, v).drop_last() =~= xs.drop_last());
    } else {
        lemma_sum_update(xs.drop_last(), j, v);
        assert(xs.update(j, v).drop_last() =~= xs.drop_last().update(j, v));
    }
}

/// A count never exceeds the total.
pub proof fn lemma_element_at_most_sum(xs: Seq<usize>, j: int)
    requires
        0 <= j < xs.len(),
    ensures
        xs[j] <= sum(xs),
        sum(xs) >= 0,
    decreases xs.len(),
{
    lemma_sum_nonnegative(xs.drop_last());
    if j < xs.len() - 1 {
        lemma_element_at_most_sum(xs.drop_last(), j);
    }
}

/// A total of counts is never negative.
pub proof fn lemma_sum_nonnegative(xs: Seq<usize>)
    ensures
        sum(xs) >= 0,
    decreases xs.len(),
{
    if xs.len() > 0 {
        lemma_sum_nonnegative(xs.drop_last());
    }
}

/// Appending a count adds it to the total.
pub proof fn lemma_sum_push(xs: Seq<usize>, v: usize)
    ensures
        sum(xs.push(v)) == sum(xs) + v,
{
    assert(xs.push(v).drop_last() =~= xs);
}

/// The blocked layout holds exactly the requested number of each strategy.
pub proof fn lemma_layout_counts(counts: Seq<usize>, s: int)
    requires
        counts.len() <= 256,
    ensures
        count_of(layout(counts), s) == if 0 <= s < counts.len() {
            counts[s] as nat
        } else {
            0nat
        },
    decreases counts.len(),
{
    if counts.len() > 0 {
        let k = counts.len() - 1;
        lemma_layout_counts(counts.drop_last(), s);
        lemma_count_of_append(layout(counts.drop_last()), repeat(counts.last() as nat, k as u8), s);
        lemma_count_of_repeat(counts.last() as nat, k as u8, s);
    }
}

/// The blocked layout has one agent per unit of count, and every agent plays
/// one of the counted strategies.
pub proof fn lemma_layout_shape(counts: Seq<usize>)
    requires
        counts.len() <= 256,
    ensures
        layout(counts).len() == sum(counts),
        forall|i: int| 0 <= i < layout(counts).len() ==> #[trigger] layout(counts)[i] < counts.len(),
    decreases counts.len(),
{
    if counts.len() > 0 {
        let k = counts.len() - 1;
        lemma_layout_shape(counts.drop_last());
        let front = layout(counts.drop_last());
        let back = repeat(counts.last() as nat, k as u8);
        assert forall|i: int| 0 <= i < layout(counts).len() implies #[trigger] layout(counts)[i]
            < counts.len() by {
            if i < front.len() {
                assert(layout(counts)[i] == front[i]);
            } else {
                assert(layout(counts)[i] == back[i - front.len()]);
            }
        }
    }
}

/// Every agent of a tallied population is counted exactly once, so the
/// counts add up to the population.
pub proof fn lemma_tally_sums_to_population(row: Seq<usize>, xs: Seq<u8>)
    requires
        is_tally(row, xs),
        forall|i: int| 0 <= i < xs.len() ==> #[trigger] xs[i] < row.len(),
    ensures
        sum(row) == xs.len(),
    decreases xs.len(),
{
    if xs.len() == 0 {
        lemma_sum_of_zeros(row);
    } else {
        let x = xs.last();
        let prev = xs.drop_last();
        assert(xs =~= prev.push(x));
        let before = row.update(x as int, (row[x as int] - 1) as usize);
        assert forall|s: int| 0 <= s < before.len() implies #[trigger] before[s] == count_of(
            prev,
            s,
        ) by {
            lemma_count_of_push(prev, x, s);
        }
        assert forall|i: int| 0 <= i < prev.len() implies #[trigger] prev[i] < before.len() by {
            assert(prev[i] == xs[i]);
        }
        lemma_tally_sums_to_population(before, prev);
        lemma_sum_update(before, x as int, row[x as int]);
        assert(before.update(x as int, row[x as int]) =~= row);
    }
}

/// A row of zero counts sums to zero.
pub proof fn lemma_sum_of_zeros(row: Seq<usize>)
    requires
        forall|s: int| 0 <= s < row.len() ==> #[trigger] row[s] == 0,
    ensures
        sum(row) == 0,
    decreases row.len(),
{
    if row.len() > 0 {
        lemma_sum_of_zeros(row.drop_last());
    }
}

/// Counts how many agents play each of the strategies `0..strategy_count`.
pub fn tally(agents: &Vec<StrategyId>, strategy_count: usize) -> (row: Vec<usize>)
    requires
        forall|i: int| 0 <= i < agents@.len() ==> (#[trigger] agents@[i])@ < strategy_count,
    ensures
        row@.len() == strategy_count,
        is_tally(row@, ids(agents@)),
        sum(row@) == agents@.len(),
{
    let mut row: Vec<usize> = Vec::new();
    let mut s: usize = 0;
    while s < strategy_count
        invariant
            s <= strategy_count,
            row@.len() == s,
            forall|t: int| 0 <= t < s ==> #[trigger] row@[t] == 0,
        decreases strategy_count - s,
    {
        row.push(0);
        s = s + 1;
    }
    let ghost xs = ids(agents@);
    let mut i: usize = 0;
    while i < agents.len()
        invariant
            i <= agents@.len(),
            xs == ids(agents@),
            row@.len() == strategy_count,
            is_tally(row@, xs.take(i as int)),
            forall|j: int| 0 <= j < agents@.len() ==> (#[trigger] agents@[j])@ < strategy_count,
        decreases agents@.len() - i,
    {
        let x = agents[i].index();
        proof {
            assert(xs[i as int] == agents@[i as int]@);
            lemma_count_of_bounded(xs.take(i as int), x as int);
            assert(xs.take(i as int + 1) =~= xs.take(i as int).push(xs[i as int]));
            assert forall|t: int| 0 <= t < row@.len() implies count_of(
                xs.take(i as int + 1),
                t,
            ) == count_of(xs.take(i as int), t) + if t == x {
                1nat
            } else {
                0nat
            } by {
                lemma_count_of_push(xs.take(i as int), xs[i as int], t);
            }
        }
        let current = row[x];
        row.set(x, current + 1);
        i = i + 1;
    }
    proof {
        assert(xs.take(agents@.len() as int) =~= xs);
        assert forall|j: int| 0 <= j < xs.len() implies #[trigger] xs[j] < row@.len() by {
            assert(xs[j] == agents@[j]@);
        }
        lemma_tally_sums_to_population(row@, xs);
    }
    row
}

/// Lays out a population from whole counts: `counts[0]` agents on strategy
/// 0, then `counts[1]` on strategy 1, and so on.
///
/// Nothing downstream reads the order as structure; the blocked layout is
/// simply the deterministic one.
pub fn lay_out(counts: &Vec<usize>) -> (agents: Vec<StrategyId>)
    requires
        counts@.len() <= 256,
    ensures
        ids(agents@) == layout(counts@),
{
    let mut agents: Vec<StrategyId> = Vec::new();
    let mut s: usize = 0;
    while s < counts.len()
        invariant
            s <= counts@.len(),
            counts@.len() <= 256,
            ids(agents@) == layout(counts@.take(s as int)),
        decreases counts@.len() - s,
    {
        let id = StrategyId::new(s as u8);
        let mut i: usize = 0;
        while i < counts[s]
            invariant
                s < counts@.len(),
                counts@.len() <= 256,
                i <= counts@[s as int],
                id@ == s as u8,
                ids(agents@) == layout(counts@.take(s as int)) + repeat(i as nat, s as u8),
            decreases counts@[s as int] - i,
        {
            let ghost before = agents@;
            agents.push(id);
            proof {
                assert(ids(agents@) =~= ids(before).push(id@));
                assert(repeat((i + 1) as nat, s as u8) =~= repeat(i as nat, s as u8).push(
                    s as u8,
                ));
            }
            i = i + 1;
        }
        proof {
            let next = counts@.take(s as int + 1);
            assert(next.drop_last() =~= counts@.take(s as int));
        }
        s = s + 1;
    }
    assert(counts@.take(counts@.len() as int) =~= counts@);
    agents
}

/// Adds up `counts`, or returns `None` if the total exceeds `usize::MAX`.
pub fn checked_total(counts: &Vec<usize>) -> (total: Option<usize>)
    ensures
        total is Some <==> sum(counts@) <= usize::MAX,
        total matches Some(t) ==> t == sum(counts@),
{
    let mut total: usize = 0;
    let mut s: usize = 0;
    while s < counts.len()
        invariant
            s <= counts@.len(),
            total == sum(counts@.take(s as int)),
        decreases counts@.len() - s,
    {
        proof {
            assert(counts@.take(s as int + 1) =~= counts@.take(s as int).push(counts@[s as int]));
            lemma_sum_push(counts@.take(s as int), counts@[s as int]);
        }
        match total.checked_add(counts[s]) {
            Some(t) => {
                total = t;
            },
            None => {
                proof {
                    lemma_sum_prefix_grows(counts@, s as int + 1);
                }
                return None;
            },
        }
        s = s + 1;
    }
    assert(counts@.take(counts@.len() as int) =~= counts@);
    Some(total)
}

/// The total of a prefix never exceeds the total of the whole.
pub proof fn lemma_sum_prefix_grows(xs: Seq<usize>, k: int)
    requires
        0 <= k <= xs.len(),
    ensures
        sum(xs.take(k)) <= sum(xs),
    decreases xs.len() - k,
{
    if k < xs.len() {
        lemma_sum_prefix_grows(xs, k + 1);
        assert(xs.take(k + 1) =~= xs.take(k).push(xs[k]));
        lemma_sum_push(xs.take(k), xs[k]);
    } else {
        assert(xs.take(k) =~= xs);
    }
}

/// A total of counts is at most the count of entries times the largest
/// count.
pub proof fn lemma_sum_bounded(xs: Seq<usize>)
    ensures
        0 <= sum(xs) <= xs.len() * (usize::MAX as int),
    decreases xs.len(),
{
    if xs.len() > 0 {
        lemma_sum_bounded(xs.drop_last());
        assert((xs.len() - 1) * (usize::MAX as int) + usize::MAX == xs.len() * (usize::MAX as int))
            by (nonlinear_arith);
    }
}

/// Adds up `counts` in 128 bits, where every total of a vector of counts
/// fits.
pub fn wide_total(counts: &Vec<usize>) -> (total: u128)
    ensures
        total == sum(counts@),
{
    let mut total: u128 = 0;
    let mut s: usize = 0;
    while s < counts.len()
        invariant
            s <= counts@.len(),
            total == sum(counts@.take(s as int)),
        decreases counts@.len() - s,
    {
        proof {
            assert(counts@.take(s as int + 1) =~= counts@.take(s as int).push(counts@[s as int]));
            lemma_sum_push(counts@.take(s as int), counts@[s as int]);
            lemma_sum_bounded(counts@.take(s as int + 1));
            assert((s + 1) * (usize::MAX as int) <= (usize::MAX as int) * (usize::MAX as int))
                by (nonlinear_arith)
                requires
                    s + 1 <= usize::MAX,
            ;
        }
        total = total + counts[s] as u128;
        s = s + 1;
    }
    assert(counts@.take(counts@.len() as int) =~= counts@);
    total
}

/// Settles rounded-down counts against the population they must fill.
///
/// `floors` are each strategy's rounded-down share of `population`, and
/// `ranking` orders the strategies by how much rounding cost them (largest
/// remainder first). Agents still owed go to the head of the ranking, one
/// each, cycling through it if the shortfall is larger than the ranking;
/// agents handed out too many are taken back from its tail. With a ranking
/// that covers every strategy the result fills the population exactly, and
/// with a shortfall smaller than the number of strategies no count moves by
/// more than one.
pub fn fill_leftover(floors: &Vec<usize>, ranking: &Vec<usize>, population: usize) -> (counts:
    Vec<usize>)
    requires
        forall|i: int| 0 <= i < ranking@.len() ==> #[trigger] ranking@[i] < floors@.len(),
    ensures
        counts@ == settled(floors@, ranking@, population as int),
        floors@.len() >= 1 && covers(ranking@, floors@.len()) ==> sum(counts@) == population,
        is_ranking_of(ranking@, floors@.len()) && sum(floors@) <= population ==> forall|j: int|
            0 <= j < ranking@.len() ==> #[trigger] counts@[ranking@[j] as int] == floors@[ranking@[
                j] as int] + (population - sum(floors@)) / (ranking@.len() as int) + if j < (
            population - sum(floors@)) % (ranking@.len() as int) {
                1int
            } else {
                0int
            },
{
    let mut counts: Vec<usize> = Vec::new();
    let mut s: usize = 0;
    while s < floors.len()
        invariant
            s <= floors@.len(),
            counts@ == floors@.take(s as int),
        decreases floors@.len() - s,
    {
        proof {
            assert(floors@.take(s as int + 1) =~= floors@.take(s as int).push(floors@[s as int]));
        }
        counts.push(floors[s]);
        s = s + 1;
    }
    assert(counts@ =~= floors@);
    proof {
        lemma_sum_nonnegative(floors@);
    }
    let len = ranking.len();
    let wide = wide_total(floors);
    if wide <= population as u128 {
        let total = wide as usize;
        if len == 0 {
            proof {
                if floors@.len() >= 1 && covers(ranking@, floors@.len()) {
                    assert(ranking@.contains(0int as usize));
                }
            }
            return counts;
        }
        let shortfall = population - total;
        let rounds = shortfall / len;
        let rest = shortfall % len;
        proof {
            vstd::arithmetic::div_mod::lemma_fundamental_div_mod(shortfall as int, len as int);
            vstd::arithmetic::div_mod::lemma_mod_bound(shortfall as int, len as int);
            vstd::arithmetic::mul::lemma_mul_nonnegative(rounds as int, len as int);
            assert(rounds * len == len * rounds) by (nonlinear_arith);
        }
        let mut j: usize = 0;
        while j < len
            invariant
                j <= len,
                len == ranking@.len(),
                len >= 1,
                total == sum(floors@),
                shortfall == population - total,
                rounds * len + rest == shortfall,
                rest < len,
                counts@.len() == floors@.len(),
                forall|i: int| 0 <= i < ranking@.len() ==> #[trigger] ranking@[i] < floors@.len(),
                forall|t: int|
                    0 <= t < counts@.len() ==> #[trigger] counts@[t] == floors@[t] + rounds
                        * bonus(ranking@, j as int, t),
                sum(counts@) == total + rounds * j,
            decreases len - j,
        {
            let target = ranking[j];
            proof {
                lemma_element_at_most_sum(counts@, target as int);
                vstd::arithmetic::mul::lemma_mul_inequality(j as int + 1, len as int, rounds as int);
                assert((j + 1) * rounds == rounds * j + rounds) by (nonlinear_arith);
                assert(len * rounds == rounds * len) by (nonlinear_arith);
                lemma_sum_update(counts@, target as int, (counts@[target as int] + rounds) as usize);
            }
            let current = counts[target];
            counts.set(target, current + rounds);
            proof {
                assert forall|t: int| 0 <= t < counts@.len() implies #[trigger] counts@[t]
                    == floors@[t] + rounds * bonus(ranking@, j as int + 1, t) by {
                    let b = bonus(ranking@, j as int, t);
                    assert(rounds * (b + 1) == rounds * b + rounds) by (nonlinear_arith);
                }
                assert(rounds * (j + 1) == rounds * j + rounds) by (nonlinear_arith);
            }
            j = j + 1;
        }
        let mut i: usize = 0;
        while i < rest
            invariant
                i <= rest,
                rest < len,
                len == ranking@.len(),
                total == sum(floors@),
                rounds * len + rest == population - total,
                counts@.len() == floors@.len(),
                forall|k: int| 0 <= k < ranking@.len() ==> #[trigger] ranking@[k] < floors@.len(),
                forall|t: int|
                    0 <= t < counts@.len() ==> #[trigger] counts@[t] == floors@[t] + rounds
                        * bonus(ranking@, len as int, t) + bonus(ranking@, i as int, t),
                sum(counts@) == total + rounds * len + i,
            decreases rest - i,
        {
            let target = ranking[i];
            proof {
                lemma_element_at_most_sum(counts@, target as int);
                lemma_sum_update(counts@, target as int, (counts@[target as int] + 1) as usize);
            }
            let current = counts[target];
            counts.set(target, current + 1);
            i = i + 1;
        }
        proof {
            assert(counts@ =~= settled(floors@, ranking@, population as int));
            if is_ranking_of(ranking@, floors@.len()) {
                assert forall|j: int| 0 <= j < ranking@.len() implies #[trigger] counts@[ranking@[
                    j] as int] == floors@[ranking@[j] as int] + (population - sum(floors@)) / (
                ranking@.len() as int) + if j < (population - sum(floors@)) % (
                ranking@.len() as int) {
                    1int
                } else {
                    0int
                } by {
                    lemma_leftover_goes_down_the_ranking(floors@, ranking@, population as int, j);
                }
            }
        }
        counts
    } else {
        let ghost target = settled(floors@, ranking@, population as int);
        let mut excess: u128 = wide - population as u128;
        let mut k: usize = len;
        while k > 0 && excess > 0
            invariant
                k <= len,
                len == ranking@.len(),
                counts@.len() == floors@.len(),
                forall|i: int| 0 <= i < ranking@.len() ==> #[trigger] ranking@[i] < floors@.len(),
                target == trim_from(floors@, ranking@, len as int, sum(floors@) - population),
                trim_from(counts@, ranking@, k as int, excess as int) == target,
                sum(counts@) - excess == population,
                forall|j: int|
                    k <= j < len ==> excess == 0 || #[trigger] counts@[ranking@[j] as int] == 0,
            decreases k,
        {
            let s = ranking[k - 1];
            let current = counts[s];
            let taken: usize = if (current as u128) <= excess {
                current
            } else {
                excess as usize
            };
            proof {
                lemma_sum_update(counts@, s as int, (current - taken) as usize);
            }
            counts.set(s, current - taken);
            excess = excess - taken as u128;
            k = k - 1;
        }
        proof {
            if excess > 0 && floors@.len() >= 1 && covers(ranking@, floors@.len()) {
                assert forall|t: int| 0 <= t < counts@.len() implies #[trigger] counts@[t] == 0 by {
                    assert(ranking@.contains(t as usize));
                    let j = choose|j: int| 0 <= j < ranking@.len() && ranking@[j] == t as usize;
                    assert(counts@[ranking@[j] as int] == 0);
                }
                lemma_sum_of_zeros(counts@);
            }
        }
        counts
    }
}

/// In a ranking that names each strategy once, the strategy at position `j`
/// is counted once among the first `k` positions exactly when `j < k`.
pub proof fn lemma_bonus_at_position(ranking: Seq<usize>, k: int, j: int)
    requires
        0 <= k <= ranking.len(),
        0 <= j < ranking.len(),
        forall|a: int, b: int|
            0 <= a < b < ranking.len() ==> #[trigger] ranking[a] != #[trigger] ranking[b],
    ensures
        bonus(ranking, k, ranking[j] as int) == if j < k {
            1nat
        } else {
            0nat
        },
    decreases k,
{
    if k > 0 {
        lemma_bonus_at_position(ranking, k - 1, j);
        if k - 1 != j {
            if k - 1 < j {
                assert(ranking[k - 1] != ranking[j]);
            } else {
                assert(ranking[j] != ranking[k - 1]);
            }
        }
    }
}

/// The largest-remainder rule: with a ranking that lists every strategy
/// once and a population the floors do not exceed, every strategy gets its
/// floor plus one agent per full pass of the shortfall over the ranking, and
/// the strategies at the first `shortfall % n` positions of the ranking get
/// one more. In particular, with a shortfall of `k` below the number of
/// strategies, exactly the first `k` ranked strategies get one agent more
/// than their floor and all others keep their floor, whatever the floors
/// are.
pub proof fn lemma_leftover_goes_down_the_ranking(
    floors: Seq<usize>,
    ranking: Seq<usize>,
    population: int,
    j: int,
)
    requires
        is_ranking_of(ranking, floors.len()),
        sum(floors) <= population <= usize::MAX,
        0 <= j < ranking.len(),
    ensures
        settled(floors, ranking, population)[ranking[j] as int] == floors[ranking[j] as int] + (
        population - sum(floors)) / (ranking.len() as int) + if j < (population - sum(floors)) % (
        ranking.len() as int) {
            1int
        } else {
            0int
        },
        population - sum(floors) < ranking.len() ==> settled(floors, ranking, population)[ranking[
            j] as int] == floors[ranking[j] as int] + if j < population - sum(floors) {
            1int
        } else {
            0int
        },
{
    let len = ranking.len() as int;
    let shortfall = population - sum(floors);
    let s = ranking[j] as int;
    let q = shortfall / len;
    let rest = shortfall % len;
    lemma_bonus_at_position(ranking, len, j);
    vstd::arithmetic::div_mod::lemma_mod_bound(shortfall, len);
    vstd::arithmetic::div_mod::lemma_fundamental_div_mod(shortfall, len);
    vstd::arithmetic::div_mod::lemma_div_pos_is_pos(shortfall, len);
    lemma_bonus_at_position(ranking, rest, j);
    lemma_element_at_most_sum(floors, s);
    let b: int = if j < rest {
        1
    } else {
        0
    };
    assert(q + b <= shortfall) by (nonlinear_arith)
        requires
            len >= 1,
            q >= 0,
            0 <= rest < len,
            shortfall == len * q + rest,
            b == 1 ==> rest >= 1,
            0 <= b <= 1,
    ;
    assert(q * bonus(ranking, len, s) == q);
    assert(settled(floors, ranking, population)[s] == floors[s] + q + b);
    if shortfall < len {
        vstd::arithmetic::div_mod::lemma_small_mod(shortfall as nat, len as nat);
        vstd::arithmetic::div_mod::lemma_basic_div(shortfall, len);
    }
}

/// With a ranking that names each strategy at most once, every count rises
/// by at most one.
pub proof fn lemma_bonus_at_most_one(ranking: Seq<usize>, k: int, s: int)
    requires
        0 <= k <= ranking.len(),
        forall|i: int, j: int|
            0 <= i < j < ranking.len() ==> #[trigger] ranking[i] != #[trigger] ranking[j],
    ensures
        bonus(ranking, k, s) <= 1,
        bonus(ranking, k, s) == 1 <==> exists|i: int| 0 <= i < k && ranking[i] as int == s,
    decreases k,
{
    if k > 0 {
        lemma_bonus_at_most_one(ranking, k - 1, s);
        if ranking[k - 1] as int == s {
            assert forall|i: int| 0 <= i < k - 1 implies ranking[i] as int != s by {
                assert(ranking[i] != ranking[k - 1]);
            }
        }
    }
}

} // verus!
