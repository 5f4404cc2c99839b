use sim_core::error::SimError;
use sim_core::game::Game;
use sim_core::rng::Rng;
use sim_core::types::{Generation, Seed, StrategyId};
use sim_core::wellmixed::{check_population_size, Population, MIN_POPULATION};

fn game(n: usize) -> Game<f64> {
    let rows = vec![vec![0.0; n]; n];
    let marks = vec![vec![true; n]; n];
    Game::from_rows(&rows, &marks).expect("valid game")
}

fn build(counts: Vec<usize>, seed: u64, matches: usize) -> Population {
    let population = counts.iter().sum();
    let n = counts.len();
    Population::new(&game(n), population, counts, Seed::new(seed), matches)
        .expect("valid configuration")
}

fn raw(population: &Population) -> Vec<u8> {
    population.strategies().iter().map(|s| s.get()).collect()
}

#[test]
fn a_population_is_laid_out_from_its_counts_and_records_generation_zero() {
    let p = build(vec![3, 7], 42, 10);
    assert_eq!(p.population(), 10);
    assert_eq!(p.strategy_count(), 2);
    assert_eq!(p.matches_per_agent(), 10);
    assert_eq!(p.generation(), Generation::zero());
    assert_eq!(raw(&p), [0, 0, 0, 1, 1, 1, 1, 1, 1, 1]);
    assert_eq!(p.counts().recorded_generations(), 1);
    assert_eq!(p.counts().current(), [3, 7]);
}

#[test]
fn a_population_too_small_to_imitate_anyone_is_rejected() {
    for population in [0, 1] {
        let err = Population::new(&game(2), population, vec![population, 0], Seed::new(0), 1)
            .err()
            .expect("imitation needs someone else to copy");
        assert_eq!(
            err,
            SimError::PopulationTooSmall { found: population, minimum: MIN_POPULATION }
        );
        assert_eq!(check_population_size(population), Err(err));
    }
    assert_eq!(check_population_size(2), Ok(()));
}

#[test]
fn a_generation_in_which_nobody_plays_is_rejected() {
    let err = Population::new(&game(2), 4, vec![2, 2], Seed::new(0), 0).err().expect("no matches");
    assert_eq!(err, SimError::NoMatches);
}

#[test]
fn counts_that_do_not_describe_the_game_are_rejected() {
    let err = Population::new(&game(2), 4, vec![1, 1, 2], Seed::new(0), 1).err().expect("three counts");
    assert_eq!(err, SimError::ShareCountMismatch { found: 3, expected: 2 });
}

#[test]
fn counts_that_do_not_fill_the_population_are_rejected() {
    let err = Population::new(&game(2), 10, vec![4, 5], Seed::new(0), 1).err().expect("short");
    assert_eq!(err, SimError::CountsDoNotFillPopulation { found: 9, expected: 10 });
    let err = Population::new(&game(2), 10, vec![usize::MAX, 5], Seed::new(0), 1)
        .err()
        .expect("overflowing");
    assert_eq!(err, SimError::CountsDoNotFillPopulation { found: usize::MAX, expected: 10 });
}

#[test]
fn any_positive_number_of_matches_per_agent_is_accepted() {
    let mut p = Population::new(&game(2), 2, vec![1, 1], Seed::new(0), usize::MAX)
        .expect("every agent may play as many matches as it likes");
    assert_eq!(p.matches_per_agent(), usize::MAX);
    p.start_matches();
    for _ in 0..1_000 {
        assert_eq!(p.next_match(), Some((0, 1)));
    }
}

/// Draws a whole matching pass, agent by agent.
fn draw_pass(p: &mut Population) -> Vec<(usize, usize)> {
    p.start_matches();
    let mut drawn = Vec::new();
    while let Some(m) = p.next_match() {
        drawn.push(m);
    }
    drawn
}

#[test]
fn an_agent_never_meets_itself() {
    // Two agents: each can only ever meet the other.
    let mut p = build(vec![1, 1], 0, 200);
    let matches = draw_pass(&mut p);
    assert_eq!(matches.len(), 400);
    assert!(matches[..200].iter().all(|&m| m == (0, 1)));
    assert!(matches[200..].iter().all(|&m| m == (1, 0)));
    assert_eq!(p.next_match(), None, "a finished pass draws nothing more");
}

#[test]
fn opponents_are_drawn_one_per_match_from_the_other_agents() {
    let (population, matches) = (40, 3);
    let mut p = build(vec![20, 20], 17, matches);
    let mut reference = Rng::from(Seed::new(17));
    let drawn_matches = draw_pass(&mut p);
    assert_eq!(drawn_matches.len(), population * matches);
    for agent in 0..population {
        for k in 0..matches {
            let drawn = reference.next_index(population - 1).expect("others exist");
            let expected = if drawn >= agent { drawn + 1 } else { drawn };
            assert_eq!(drawn_matches[agent * matches + k], (agent, expected));
        }
    }
}

#[test]
fn setup_spends_no_draw_and_a_generation_spends_a_fixed_number() {
    let (population, matches) = (30, 2);
    let mut p = build(vec![10, 20], 88, matches);
    let mut reference = Rng::from(Seed::new(88));

    draw_pass(&mut p);
    p.draw_models();

    for _ in 0..population * matches {
        reference.next_index(population - 1);
    }
    for agent in 0..population {
        let drawn = reference.next_index(population - 1).expect("others exist");
        let model = if drawn >= agent { drawn + 1 } else { drawn };
        assert_eq!(p.models()[agent], model);
        assert_eq!(p.coins()[agent], reference.next_unit_bits());
    }
}

#[test]
fn models_are_other_agents() {
    let mut p = build(vec![5, 5, 5], 3, 1);
    p.draw_models();
    for (agent, &model) in p.models().iter().enumerate() {
        assert!(model < 15);
        assert_ne!(model, agent);
    }
}

#[test]
fn adopting_takes_the_model_strategy_as_it_was_at_the_start_of_the_round() {
    let mut p = build(vec![3, 3], 9, 1);
    p.draw_models();
    let before = raw(&p);
    let models = p.models().to_vec();
    p.imitate(&vec![true; 6]);
    let after = raw(&p);
    for agent in 0..6 {
        assert_eq!(after[agent], before[models[agent]]);
    }
}

#[test]
fn declining_keeps_every_strategy() {
    let mut p = build(vec![2, 4], 1, 2);
    let before = raw(&p);
    p.draw_models();
    p.imitate(&vec![false; 6]);
    assert_eq!(raw(&p), before);
    assert_eq!(p.generation().get(), 1);
}

#[test]
fn a_uniform_population_cannot_change_whatever_it_decides() {
    let mut p = build(vec![0, 64], 5, 8);
    for round in 0..20 {
        draw_pass(&mut p);
        p.draw_models();
        let adopt: Vec<bool> = (0..64).map(|a| (a + round) % 3 == 0).collect();
        p.imitate(&adopt);
    }
    assert!(p.strategies().iter().all(|&s| s == StrategyId::new(1)));
    assert_eq!(p.counts().current(), [0, 64]);
}

#[test]
fn each_generation_records_one_row_that_counts_the_whole_population() {
    let mut p = build(vec![25, 25, 27], 19, 2);
    for generation in 1..=12u32 {
        draw_pass(&mut p);
        p.draw_models();
        let adopt: Vec<bool> = (0..77).map(|a| a % 2 == 0).collect();
        p.imitate(&adopt);
        assert_eq!(p.generation().get(), generation);
        assert_eq!(p.counts().recorded_generations(), generation as usize + 1);
    }
    for row in p.counts().as_slice().chunks_exact(3) {
        assert_eq!(row.iter().sum::<usize>(), 77);
    }
    let mut current = vec![0usize; 3];
    for s in p.strategies() {
        current[s.index()] += 1;
    }
    assert_eq!(p.counts().current(), current.as_slice());
    assert_eq!(p.counts().shares_at(p.generation()), Some(current.as_slice()));
}

#[test]
fn the_same_seed_replays_a_whole_run() {
    let run = |seed| {
        let mut p = build(vec![120, 180], seed, 4);
        for _ in 0..30 {
            draw_pass(&mut p);
            p.draw_models();
            let adopt: Vec<bool> = p.coins().iter().map(|&c| c % 2 == 0).collect();
            p.imitate(&adopt);
        }
        (raw(&p), p.counts().as_slice().to_vec())
    };
    assert_eq!(run(6), run(6));
    assert_ne!(run(6), run(7));
}
