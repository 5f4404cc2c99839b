use sim_core::composition::{checked_total, fill_leftover, lay_out, tally, wide_total};
use sim_core::types::StrategyId;

fn ids(raw: &[u8]) -> Vec<StrategyId> {
    raw.iter().map(|&r| StrategyId::new(r)).collect()
}

#[test]
fn the_layout_is_blocked_and_exact() {
    let agents = lay_out(&vec![2, 0, 3]);
    assert_eq!(agents, ids(&[0, 0, 2, 2, 2]));
}

#[test]
fn a_zero_count_leaves_a_strategy_absent() {
    let agents = lay_out(&vec![0, 4]);
    assert_eq!(agents, ids(&[1, 1, 1, 1]));
}

#[test]
fn a_tally_counts_every_agent_once() {
    let row = tally(&ids(&[2, 0, 2, 1, 2]), 4);
    assert_eq!(row, vec![1, 1, 3, 0]);
    assert_eq!(row.iter().sum::<usize>(), 5);
}

#[test]
fn a_tally_of_a_layout_gives_back_its_counts() {
    let counts = vec![3, 1, 0, 6];
    assert_eq!(tally(&lay_out(&counts), 4), counts);
}

#[test]
fn leftover_agents_go_to_the_head_of_the_ranking() {
    // Thirds of ten agents: each strategy floors to 3, and the one leftover
    // agent goes to the strategy ranked first.
    let counts = fill_leftover(&vec![3, 3, 3], &vec![0, 1, 2], 10);
    assert_eq!(counts, vec![4, 3, 3]);

    let counts = fill_leftover(&vec![3, 3, 3], &vec![2, 0, 1], 11);
    assert_eq!(counts, vec![4, 3, 4]);
}

#[test]
fn nothing_is_handed_out_when_the_floors_already_fill_the_population() {
    assert_eq!(fill_leftover(&vec![300, 700], &vec![1, 0], 1_000), vec![300, 700]);
}

#[test]
fn a_shortfall_larger_than_the_ranking_cycles_through_it() {
    assert_eq!(fill_leftover(&vec![0, 0], &vec![1, 0], 10), vec![5, 5]);
    assert_eq!(fill_leftover(&vec![0, 0, 0], &vec![2, 0, 1], 10), vec![3, 3, 4]);
}

#[test]
fn an_excess_is_taken_back_from_the_tail_of_the_ranking() {
    // Rounding handed out 12 agents for a population of 10: strategy 1 is
    // ranked last and gives up what it has, then strategy 2.
    assert_eq!(fill_leftover(&vec![5, 1, 6], &vec![0, 2, 1], 10), vec![5, 0, 5]);
    assert_eq!(fill_leftover(&vec![4, 4], &vec![0, 1], 3), vec![3, 0]);
    assert_eq!(fill_leftover(&vec![6, 6], &vec![0, 1], 10), vec![6, 4]);
}

#[test]
fn an_empty_ranking_leaves_the_floors_as_they_are() {
    assert_eq!(fill_leftover(&vec![1, 1], &vec![], 10), vec![1, 1]);
}

#[test]
fn a_total_that_fits_is_returned_and_one_that_overflows_is_not() {
    assert_eq!(checked_total(&vec![1, 2, 3]), Some(6));
    assert_eq!(checked_total(&vec![]), Some(0));
    assert_eq!(checked_total(&vec![usize::MAX, 1]), None);
    assert_eq!(wide_total(&vec![usize::MAX, 1]), usize::MAX as u128 + 1);
}
