use sim_core::history::History;
use sim_core::types::Generation;

#[test]
fn a_new_history_holds_generation_zero() {
    let history = History::new(vec![0.3, 0.7]);
    assert_eq!(history.recorded_generations(), 1);
    assert_eq!(history.as_slice(), [0.3, 0.7]);
    assert_eq!(history.current(), [0.3, 0.7]);
    assert_eq!(history.width_of(), 2);
    assert_eq!(history.shares_at(Generation::zero()), Some([0.3, 0.7].as_slice()));
}

#[test]
fn each_push_appends_exactly_one_row_generation_major() {
    let mut history = History::new(vec![1usize, 0, 0]);
    for g in 1..=5usize {
        history.push_row(&[g, 10 * g, 100 * g]);
        assert_eq!(history.recorded_generations(), g + 1);
        assert_eq!(history.as_slice().len(), (g + 1) * 3);
        assert_eq!(history.current(), [g, 10 * g, 100 * g]);
    }
    for g in 0..history.recorded_generations() {
        let row = history.shares_at(Generation::new(g as u32)).expect("recorded");
        assert_eq!(row, &history.as_slice()[g * 3..g * 3 + 3]);
    }
    assert_eq!(history.shares_at(Generation::new(2)), Some([2usize, 20, 200].as_slice()));
}

#[test]
fn a_generation_that_has_not_run_has_no_row_in_the_history() {
    let mut history = History::new(vec![0.5, 0.5]);
    history.push_row(&[0.4, 0.6]);
    assert_eq!(history.shares_at(Generation::new(2)), None);
    assert_eq!(history.shares_at(Generation::new(9_999)), None);
    assert_eq!(history.shares_at(Generation::new(u32::MAX)), None);
}

#[test]
fn the_last_row_is_the_row_of_the_latest_generation() {
    let mut history = History::new(vec![7u8]);
    history.push_row(&[8]);
    history.push_row(&[9]);
    let latest = Generation::new((history.recorded_generations() - 1) as u32);
    assert_eq!(history.shares_at(latest), Some(history.current()));
}

#[test]
fn a_cloned_history_has_the_same_rows() {
    let mut history = History::new(vec![1, 2]);
    history.push_row(&[3, 4]);
    let copy = history.clone();
    assert_eq!(copy.as_slice(), history.as_slice());
    assert_eq!(copy.recorded_generations(), 2);
}
