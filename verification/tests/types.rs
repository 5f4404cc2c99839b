use sim_core::types::{Generation, Seed, StrategyId};
use std::mem::size_of;

#[test]
fn strategy_id_is_one_byte_wide() {
    // The grid of strategies is handed out as a byte buffer, which is only
    // free if the newtype costs nothing.
    assert_eq!(size_of::<StrategyId>(), size_of::<u8>());
}

#[test]
fn strategy_id_round_trips_through_every_byte() {
    for raw in u8::MIN..=u8::MAX {
        let id = StrategyId::from(raw);
        assert_eq!(u8::from(id), raw);
        assert_eq!(id.get(), raw);
        assert_eq!(id.index(), usize::from(raw));
    }
}

#[test]
fn strategy_ids_order_by_their_raw_value() {
    assert!(StrategyId::from(0) < StrategyId::from(1));
    assert_eq!(
        [StrategyId::from(2), StrategyId::from(0)].iter().min(),
        Some(&StrategyId::from(0))
    );
}

#[test]
fn seed_round_trips() {
    for raw in [0, 1, 42, u64::MAX] {
        let seed = Seed::from(raw);
        assert_eq!(u64::from(seed), raw);
        assert_eq!(seed.get(), raw);
    }
}

#[test]
fn generation_starts_at_zero_and_counts_up() {
    assert_eq!(Generation::zero().get(), 0);
    assert_eq!(Generation::zero().index(), 0);

    let g = Generation::zero().next();
    assert_eq!(g.get(), 1);
    assert_eq!(g.next().get(), 2);
}

#[test]
fn generation_saturates_instead_of_wrapping_or_panicking() {
    let last = Generation::from(u32::MAX);
    assert_eq!(last.next(), last);
}

#[test]
fn generation_round_trips_and_orders() {
    let g = Generation::from(7);
    assert_eq!(u32::from(g), 7);
    assert_eq!(g.index(), 7);
    assert!(Generation::zero() < g);
}

#[test]
fn display_shows_the_bare_number_for_use_inside_messages() {
    assert_eq!(StrategyId::from(3).to_string(), "3");
    assert_eq!(Seed::from(12345).to_string(), "12345");
    assert_eq!(Generation::from(9).to_string(), "9");
}

#[test]
fn new_and_get_agree_with_the_conversions() {
    assert_eq!(StrategyId::new(200), StrategyId::from(200));
    assert_eq!(Seed::new(9).get(), 9);
    assert_eq!(Generation::new(41).next().get(), 42);
}

#[test]
fn rendering_covers_zero_and_the_extremes() {
    assert_eq!(StrategyId::from(0).to_string(), "0");
    assert_eq!(StrategyId::from(255).to_string(), "255");
    assert_eq!(Seed::from(u64::MAX).to_string(), "18446744073709551615");
    assert_eq!(Generation::from(u32::MAX).to_string(), "4294967295");
    assert_eq!(Generation::from(10).to_string(), "10");
}
