use sim_core::rng::{Rng, UNIT_BITS_BOUND};
use sim_core::types::Seed;

#[test]
fn same_seed_same_stream() {
    let mut a = Rng::from(Seed::new(42));
    let mut b = Rng::from(Seed::new(42));
    for len in 1..200usize {
        assert_eq!(a.next_index(len), b.next_index(len));
        assert_eq!(a.next_unit_bits(), b.next_unit_bits());
    }
}

#[test]
fn different_seeds_give_different_streams() {
    let mut a = Rng::seeded(Seed::new(1));
    let mut b = Rng::seeded(Seed::new(2));
    let left: Vec<_> = (0..16).map(|_| a.next_unit_bits()).collect();
    let right: Vec<_> = (0..16).map(|_| b.next_unit_bits()).collect();
    assert_ne!(left, right);
}

#[test]
fn an_index_is_always_inside_its_range() {
    let mut rng = Rng::seeded(Seed::new(7));
    for len in 1..1_000usize {
        let i = rng.next_index(len).expect("a non-empty range has an index");
        assert!(i < len);
    }
}

#[test]
fn an_empty_range_has_no_index_and_spends_no_draw() {
    let mut rng = Rng::seeded(Seed::new(3));
    let mut fresh = Rng::seeded(Seed::new(3));
    assert_eq!(rng.next_index(0), None);
    assert_eq!(rng.next_unit_bits(), fresh.next_unit_bits());
}

#[test]
fn unit_bits_stay_below_two_to_the_fifty_three() {
    let mut rng = Rng::seeded(Seed::new(11));
    for _ in 0..10_000 {
        assert!(rng.next_unit_bits() < UNIT_BITS_BOUND);
    }
    assert_eq!(UNIT_BITS_BOUND, 1u64 << 53);
}

#[test]
fn the_first_draws_of_seed_zero_are_splitmix64() {
    // Published reference outputs of SplitMix64 from state 0.
    let mut rng = Rng::seeded(Seed::new(0));
    let first = rng.next_unit_bits();
    assert_eq!(first, 0xe220_a839_7b1d_cdaf >> 11);
    let second = rng.next_unit_bits();
    assert_eq!(second, 0x6e78_9e6a_a1b9_65f4 >> 11);
}

#[test]
fn both_kinds_of_draw_spend_one_step_of_the_same_stream() {
    let mut mixed = Rng::seeded(Seed::new(99));
    let mut units = Rng::seeded(Seed::new(99));
    mixed.next_index(10);
    units.next_unit_bits();
    assert_eq!(mixed.next_unit_bits(), units.next_unit_bits());
}

#[test]
fn a_clone_continues_the_same_stream() {
    let mut rng = Rng::seeded(Seed::new(5));
    rng.next_unit_bits();
    let mut copy = rng.clone();
    assert_eq!(rng.next_index(1000), copy.next_index(1000));
}
