use sim_core::counter::Sim;

#[test]
fn sim_steps() {
    let mut sim = Sim::new();
    assert_eq!(sim.step(), 1);
    assert_eq!(sim.step(), 2);
    assert_eq!(sim.tick(), 2);
}

#[test]
fn a_default_counter_sits_at_zero() {
    let sim = Sim::default();
    assert_eq!(sim.tick(), 0);
}
