//! The agents of a well-mixed population and the draws that drive them.
//!
//! Every agent is equally likely to meet every other, with no space or
//! network between them. A generation runs in three phases, in this order:
//!
//! 1. [`Population::start_matches`] opens the matching pass, and each call
//!    of [`Population::next_match`] then draws the next match's opponent,
//!    one draw per match, agent by agent, until every agent has played its
//!    matches;
//! 2. [`Population::draw_models`] draws, agent by agent, a model to compare
//!    against and a coin to decide with;
//! 3. [`Population::imitate`] applies the adoption decisions synchronously,
//!    records the new composition and advances the generation.
//!
//! Scoring the matches and turning a score gap into an adoption decision are
//! arithmetic on payoffs, done by the caller between the phases. The number
//! of draws a generation spends never depends on what is decided, so a run
//! is replayed exactly by its seed.

use crate::composition::{
    count_of, ids, is_tally, lay_out, layout, checked_total, sum, tally,
    lemma_layout_counts, lemma_layout_shape, lemma_tally_sums_to_population,
};
use crate::error::SimError;
use crate::game::{Game, MAX_STRATEGIES};
use crate::history::History;
use crate::rng::{advance, advance_by, index_draw, unit_bits_draw, Rng, UNIT_BITS_BOUND};
use crate::types::{next_generation, Generation, Seed, StrategyId};
use vstd::prelude::*;

verus! {

/// Fewest agents the dynamics are defined for: imitation needs someone other
/// than yourself to copy.
pub const MIN_POPULATION: usize = 2;

/// Rejects a population too small to imitate anyone.
pub fn check_population_size(population: usize) -> (r: Result<(), SimError>)
    ensures
        r is Ok <==> population >= MIN_POPULATION,
        r is Err ==> r == Err::<(), SimError>(
            SimError::PopulationTooSmall { found: population, minimum: MIN_POPULATION },
        ),
{
    if population < MIN_POPULATION {
        Err(SimError::PopulationTooSmall { found: population, minimum: MIN_POPULATION })
    } else {
        Ok(())
    }
}

/// An index drawn from the `population - 1` other agents, mapped past the gap
/// `agent` itself leaves.
pub open spec fn shifted(drawn: int, agent: int) -> int {
    if drawn >= agent {
        drawn + 1
    } else {
        drawn
    }
}

/// The opponent of match `j` (agent `j / matches`, its match `j % matches`)
/// when a generation's matching starts from generator state `start`.
pub open spec fn opponent_draw(start: u64, j: int, matches: int, population: int) -> int {
    shifted(index_draw(advance_by(start, j as nat), (population - 1) as usize) as int, j / matches)
}

/// The model `agent` compares itself against when the model draws start from
/// generator state `start`: each agent draws a model, then a coin.
pub open spec fn model_draw(start: u64, agent: int, population: int) -> int {
    shifted(
        index_draw(advance_by(start, (2 * agent) as nat), (population - 1) as usize) as int,
        agent,
    )
}

/// The coin `agent` decides with, as the bits of a unit-interval sample.
pub open spec fn coin_draw(start: u64, agent: int) -> u64 {
    unit_bits_draw(advance_by(start, (2 * agent + 1) as nat))
}

/// The synchronous update: every agent that adopts takes its model's
/// strategy as it was at the start of the round; every other keeps its own.
pub open spec fn imitation(agents: Seq<u8>, models: Seq<usize>, adopt: Seq<bool>) -> Seq<u8> {
    Seq::new(
        agents.len(),
        |a: int|
            if adopt[a] {
                agents[models[a] as int]
            } else {
                agents[a]
            },
    )
}

/// A well-mixed population of agents playing pure strategies.
pub struct Population {
    strategy_count: usize,
    matches_per_agent: usize,
    rng: Rng,
    /// One strategy per agent; the population itself.
    strategies: Vec<StrategyId>,
    /// Target of the synchronous update, swapped with `strategies` after it.
    next_strategies: Vec<StrategyId>,
    /// The agent whose match is drawn next.
    match_agent: usize,
    /// How many of that agent's matches have been drawn.
    match_round: usize,
    /// The generator's state when the matching pass started.
    match_start: Ghost<u64>,
    /// This generation's model for each agent.
    models: Vec<usize>,
    /// This generation's coin for each agent.
    coins: Vec<u64>,
    /// How many agents played each strategy, generation by generation.
    counts: History<usize>,
    generation: Generation,
}

impl Population {
    /// The strategy each agent plays.
    pub closed spec fn agents(&self) -> Seq<u8> {
        ids(self.strategies@)
    }

    /// Number of agents.
    pub closed spec fn size(&self) -> nat {
        self.strategies@.len()
    }

    /// Number of strategies in the game being played.
    pub closed spec fn strategies_in_game(&self) -> nat {
        self.strategy_count as nat
    }

    /// Matches each agent initiates per generation.
    pub closed spec fn matches(&self) -> nat {
        self.matches_per_agent as nat
    }

    /// The generator's state.
    pub closed spec fn rng_state(&self) -> u64 {
        self.rng@
    }

    /// The agent whose match the matching pass draws next (the population
    /// size once the pass is over).
    pub closed spec fn pending_agent(&self) -> nat {
        self.match_agent as nat
    }

    /// How many of the pending agent's matches have been drawn.
    pub closed spec fn pending_round(&self) -> nat {
        self.match_round as nat
    }

    /// The generator's state when the matching pass started.
    pub closed spec fn matching_from(&self) -> u64 {
        self.match_start@
    }

    /// How many matches of the current pass have been drawn.
    pub open spec fn matches_drawn(&self) -> int {
        (self.pending_agent() * self.matches() + self.pending_round()) as int
    }

    /// The generator has spent exactly one draw per match drawn since the
    /// matching pass started.
    pub open spec fn in_step_with_matching(&self) -> bool {
        self.rng_state() == advance_by(self.matching_from(), self.matches_drawn() as nat)
    }

    /// The models drawn by the latest model pass.
    pub closed spec fn model_record(&self) -> Seq<usize> {
        self.models@
    }

    /// The coins drawn by the latest model pass.
    pub closed spec fn coin_record(&self) -> Seq<u64> {
        self.coins@
    }

    /// The composition of every generation so far.
    pub closed spec fn count_history(&self) -> History<usize> {
        self.counts
    }

    /// How many generations have been run.
    pub closed spec fn generation_count(&self) -> u32 {
        self.generation@
    }

    /// The population's internal consistency, kept by every operation.
    pub closed spec fn wf(&self) -> bool {
        let n = self.strategy_count;
        let pop = self.strategies@.len();
        &&& 1 <= n <= MAX_STRATEGIES
        &&& self.matches_per_agent >= 1
        &&& MIN_POPULATION <= pop
        &&& self.next_strategies@.len() == pop
        &&& self.match_agent <= pop
        &&& self.match_round < self.matches_per_agent
        &&& self.match_agent == pop ==> self.match_round == 0
        &&& self.models@.len() == pop
        &&& self.coins@.len() == pop
        &&& forall|a: int| 0 <= a < pop ==> #[trigger] self.models@[a] < pop && self.models@[a] != a
        &&& forall|a: int| 0 <= a < pop ==> (#[trigger] self.strategies@[a])@ < n
        &&& self.counts.wf()
        &&& self.counts.width() == n
        &&& is_tally(self.counts.row(self.counts.generations() - 1), ids(self.strategies@))
        &&& forall|g: int|
            0 <= g < self.counts.generations() ==> #[trigger] sum(self.counts.row(g)) == pop
        &&& self.counts.generations() >= self.generation@ + 1
        &&& self.generation@ < u32::MAX ==> self.counts.generations() == self.generation@ + 1
    }

    /// What a consistent population guarantees: at least two agents, every
    /// agent on one of the game's strategies, the latest recorded row counting
    /// the population as it stands, and every recorded row a whole
    /// population, so every recorded generation is a distribution.
    pub proof fn lemma_consistent(&self)
        requires
            self.wf(),
        ensures
            self.agents().len() == self.size(),
            self.size() >= MIN_POPULATION,
            self.matches() >= 1,
            1 <= self.strategies_in_game() <= MAX_STRATEGIES,
            forall|a: int| 0 <= a < self.size() ==> #[trigger] self.agents()[a] < self.strategies_in_game(),
            self.count_history().wf(),
            self.count_history().width() == self.strategies_in_game(),
            is_tally(self.count_history().row(self.count_history().generations() - 1), self.agents()),
            forall|g: int|
                0 <= g < self.count_history().generations() ==> #[trigger] sum(
                    self.count_history().row(g),
                ) == self.size(),
            self.count_history().generations() >= self.generation_count() + 1,
            self.generation_count() < u32::MAX ==> self.count_history().generations()
                == self.generation_count() + 1,
    {
        assert forall|a: int| 0 <= a < self.size() implies #[trigger] self.agents()[a]
            < self.strategies_in_game() by {
            assert(self.agents()[a] == self.strategies@[a]@);
        }
    }

    /// A matching pass draws exactly `size * matches` matches: while agents
    /// are pending fewer have been drawn, and once none is pending exactly
    /// that many have.
    pub proof fn lemma_matching_pass_length(&self)
        requires
            self.wf(),
        ensures
            0 <= self.matches_drawn() <= self.size() * self.matches(),
            (self.pending_agent() < self.size()) == (self.matches_drawn() < self.size()
                * self.matches()),
    {
        let a = self.pending_agent() as int;
        let k = self.pending_round() as int;
        let m = self.matches() as int;
        let n = self.size() as int;
        assert(0 <= a * m + k <= n * m && ((a < n) == (a * m + k < n * m))) by (nonlinear_arith)
            requires
                0 <= a <= n,
                0 <= k < m,
                a == n ==> k == 0,
        ;
    }

    /// Lays out a population of `population` agents, `counts[s]` of them on
    /// strategy `s` of `game`, that will meet `matches_per_agent` opponents
    /// each per generation and draw from a generator seeded with `seed`.
    ///
    /// Generation 0 is recorded here, before anything runs, and no draw is
    /// spent: setup never shifts the stream a run then consumes.
    pub fn new<P>(
        game: &Game<P>,
        population: usize,
        counts: Vec<usize>,
        seed: Seed,
        matches_per_agent: usize,
    ) -> (r: Result<Self, SimError>)
        ensures
            r is Ok <==> {
                &&& population >= MIN_POPULATION
                &&& matches_per_agent >= 1
                &&& counts@.len() == game.count()
                &&& sum(counts@) == population
            },
            population < MIN_POPULATION ==> r == Err::<Self, SimError>(
                SimError::PopulationTooSmall { found: population, minimum: MIN_POPULATION },
            ),
            population >= MIN_POPULATION && matches_per_agent == 0 ==> r == Err::<Self, SimError>(
                SimError::NoMatches,
            ),
            population >= MIN_POPULATION && matches_per_agent >= 1 && counts@.len() != game.count()
                ==> r == Err::<Self, SimError>(
                SimError::ShareCountMismatch { found: counts.len(), expected: game.count() as usize },
            ),
            population >= MIN_POPULATION && matches_per_agent >= 1 && counts@.len() == game.count()
                && sum(counts@) != population ==> r == Err::<Self, SimError>(
                SimError::CountsDoNotFillPopulation {
                    found: if sum(counts@) <= usize::MAX {
                        sum(counts@) as usize
                    } else {
                        usize::MAX
                    },
                    expected: population,
                },
            ),
            r matches Ok(p) ==> {
                &&& p.wf()
                &&& p.size() == population
                &&& p.strategies_in_game() == game.count()
                &&& p.matches() == matches_per_agent
                &&& p.agents() == layout(counts@)
                &&& p.rng_state() == seed@
                &&& p.matching_from() == seed@
                &&& p.matches_drawn() == 0
                &&& p.generation_count() == 0
                &&& p.count_history().generations() == 1
                &&& p.count_history().entries() == counts@
            },
    {
        let n = game.strategy_count();
        check_population_size(population)?;
        if matches_per_agent == 0 {
            return Err(SimError::NoMatches);
        }
        if counts.len() != n {
            return Err(SimError::ShareCountMismatch { found: counts.len(), expected: n });
        }
        match checked_total(&counts) {
            Some(total) => {
                if total != population {
                    return Err(
                        SimError::CountsDoNotFillPopulation { found: total, expected: population },
                    );
                }
            },
            None => {
                return Err(
                    SimError::CountsDoNotFillPopulation { found: usize::MAX, expected: population },
                );
            },
        }
        let strategies = lay_out(&counts);
        proof {
            lemma_layout_shape(counts@);
            assert forall|a: int| 0 <= a < strategies@.len() implies (
            #[trigger] strategies@[a])@ < n by {
                assert(ids(strategies@)[a] == strategies@[a]@);
            }
        }
        let mut next_strategies: Vec<StrategyId> = Vec::new();
        let mut models: Vec<usize> = Vec::new();
        let mut coins: Vec<u64> = Vec::new();
        let mut a: usize = 0;
        while a < population
            invariant
                a <= population,
                population >= MIN_POPULATION,
                next_strategies@.len() == a,
                models@.len() == a,
                coins@.len() == a,
                forall|b: int| 0 <= b < a ==> #[trigger] models@[b] < population && models@[b] != b,
            decreases population - a,
        {
            next_strategies.push(StrategyId::new(0));
            models.push(if a == 0 {
                1
            } else {
                0
            });
            coins.push(0);
            a = a + 1;
        }
        let first = tally(&strategies, n);
        proof {
            assert forall|s: int| 0 <= s < first@.len() implies #[trigger] first@[s] == counts@[s] by {
                lemma_layout_counts(counts@, s);
            }
            assert(first@ =~= counts@);
        }
        let history = History::new(first);
        proof {
            assert(history.row(0) =~= history.entries());
        }
        let p = Population {
            strategy_count: n,
            matches_per_agent,
            rng: Rng::seeded(seed),
            strategies,
            next_strategies,
            match_agent: 0,
            match_round: 0,
            match_start: Ghost(seed@),
            models,
            coins,
            counts: history,
            generation: Generation::zero(),
        };
        proof {
            assert(p.matches_drawn() == 0) by (nonlinear_arith)
                requires
                    p.pending_agent() == 0,
                    p.pending_round() == 0,
            ;
        }
        Ok(p)
    }

    /// Opens a matching pass: the next match drawn is agent 0's first, and
    /// the pass counts its draws from the generator's current state. Draws
    /// nothing.
    pub fn start_matches(&mut self)
        requires
            old(self).wf(),
        ensures
            final(self).wf(),
            final(self).agents() == old(self).agents(),
            final(self).size() == old(self).size(),
            final(self).strategies_in_game() == old(self).strategies_in_game(),
            final(self).matches() == old(self).matches(),
            final(self).count_history() == old(self).count_history(),
            final(self).generation_count() == old(self).generation_count(),
            final(self).model_record() == old(self).model_record(),
            final(self).coin_record() == old(self).coin_record(),
            final(self).rng_state() == old(self).rng_state(),
            final(self).matching_from() == old(self).rng_state(),
            final(self).pending_agent() == 0,
            final(self).pending_round() == 0,
            final(self).in_step_with_matching(),
    {
        self.match_agent = 0;
        self.match_round = 0;
        self.match_start = Ghost(self.rng@);
        proof {
            assert(self.matches_drawn() == 0) by (nonlinear_arith)
                requires
                    self.match_agent == 0,
                    self.match_round == 0,
            ;
        }
    }

    /// Draws the next match of the matching pass, or returns `None`, drawing
    /// nothing, once every agent has played its matches.
    ///
    /// Every agent initiates exactly `matches_per_agent` matches, in agent
    /// order, each against one of the other agents drawn uniformly with a
    /// single draw: an index over the `population - 1` others, mapped past the
    /// gap the agent itself leaves. An agent never meets itself, and the
    /// number of draws spent does not depend on what is drawn. Nothing is
    /// stored per match, so any number of matches per agent can be played.
    ///
    /// Only the initiator of a match banks its payoff, so every agent's total
    /// is over the same number of matches and totals are comparable.
    pub fn next_match(&mut self) -> (r: Option<(usize, usize)>)
        requires
            old(self).wf(),
        ensures
            final(self).wf(),
            final(self).agents() == old(self).agents(),
            final(self).size() == old(self).size(),
            final(self).strategies_in_game() == old(self).strategies_in_game(),
            final(self).matches() == old(self).matches(),
            final(self).count_history() == old(self).count_history(),
            final(self).generation_count() == old(self).generation_count(),
            final(self).model_record() == old(self).model_record(),
            final(self).coin_record() == old(self).coin_record(),
            final(self).matching_from() == old(self).matching_from(),
            r is Some <==> old(self).pending_agent() < old(self).size(),
            r is None ==> final(self).rng_state() == old(self).rng_state()
                && final(self).pending_agent() == old(self).pending_agent()
                && final(self).pending_round() == old(self).pending_round(),
            r matches Some((agent, opponent)) ==> {
                &&& agent == old(self).pending_agent()
                &&& opponent == shifted(
                    index_draw(old(self).rng_state(), (old(self).size() - 1) as usize) as int,
                    agent as int,
                )
                &&& opponent < old(self).size()
                &&& opponent != agent
                &&& final(self).rng_state() == advance(old(self).rng_state())
                &&& final(self).matches_drawn() == old(self).matches_drawn() + 1
                &&& if old(self).pending_round() + 1 < old(self).matches() {
                    final(self).pending_agent() == old(self).pending_agent()
                        && final(self).pending_round() == old(self).pending_round() + 1
                } else {
                    final(self).pending_agent() == old(self).pending_agent() + 1
                        && final(self).pending_round() == 0
                }
                &&& old(self).in_step_with_matching() ==> opponent == opponent_draw(
                    old(self).matching_from(),
                    old(self).matches_drawn(),
                    old(self).matches() as int,
                    old(self).size() as int,
                )
            },
            old(self).in_step_with_matching() ==> final(self).in_step_with_matching(),
    {
        let population = self.strategies.len();
        let agent = self.match_agent;
        if agent >= population {
            return None;
        }
        let ghost before = self.rng@;
        let drawn = match self.rng.next_index(population - 1) {
            Some(d) => d,
            None => 0,
        };
        let opponent = if drawn >= agent {
            drawn + 1
        } else {
            drawn
        };
        let round = self.match_round;
        let matches = self.matches_per_agent;
        if round + 1 < matches {
            self.match_round = round + 1;
        } else {
            self.match_agent = agent + 1;
            self.match_round = 0;
        }
        proof {
            let m = matches as int;
            let k = round as int;
            let a = agent as int;
            assert(self.match_agent * m + self.match_round == a * m + k + 1) by (nonlinear_arith)
                requires
                    (self.match_agent == a && self.match_round == k + 1) || (self.match_agent
                        == a + 1 && self.match_round == 0 && k + 1 == m),
            ;
            vstd::arithmetic::div_mod::lemma_fundamental_div_mod_converse(a * m + k, m, a, k);
        }
        Some((agent, opponent))
    }

    /// Draws, agent by agent, a model to compare against and a coin to decide
    /// with: two draws per agent, always, whatever will be decided.
    ///
    /// The model is drawn the way an opponent is, from the other agents. The
    /// coin is the bits of a sample from `[0, 1)`; the agent will adopt its
    /// model's strategy if the sample falls below the adoption probability.
    pub fn draw_models(&mut self)
        requires
            old(self).wf(),
        ensures
            final(self).wf(),
            final(self).agents() == old(self).agents(),
            final(self).size() == old(self).size(),
            final(self).strategies_in_game() == old(self).strategies_in_game(),
            final(self).matches() == old(self).matches(),
            final(self).count_history() == old(self).count_history(),
            final(self).generation_count() == old(self).generation_count(),
            final(self).pending_agent() == old(self).pending_agent(),
            final(self).pending_round() == old(self).pending_round(),
            final(self).matching_from() == old(self).matching_from(),
            final(self).rng_state() == advance_by(old(self).rng_state(), 2 * old(self).size()),
            final(self).model_record().len() == old(self).size(),
            final(self).coin_record().len() == old(self).size(),
            forall|a: int|
                0 <= a < old(self).size() ==> #[trigger] final(self).model_record()[a]
                    == model_draw(old(self).rng_state(), a, old(self).size() as int),
            forall|a: int|
                0 <= a < old(self).size() ==> #[trigger] final(self).coin_record()[a] == coin_draw(
                    old(self).rng_state(),
                    a,
                ),
            forall|a: int|
                0 <= a < old(self).size() ==> (#[trigger] final(self).model_record()[a] as int)
                    < (old(self).size() as int) && final(self).model_record()[a] != a,
            forall|a: int|
                0 <= a < old(self).size() ==> #[trigger] final(self).coin_record()[a]
                    < UNIT_BITS_BOUND,
    {
        let ghost start = self.rng@;
        let population = self.strategies.len();
        let others = population - 1;
        let mut agent: usize = 0;
        while agent < population
            invariant
                self.wf(),
                population == self.strategies@.len(),
                others == population - 1,
                agent <= population,
                self.rng@ == advance_by(start, (2 * agent) as nat),
                self.strategies@ == old(self).strategies@,
                self.strategy_count == old(self).strategy_count,
                self.matches_per_agent == old(self).matches_per_agent,
                self.counts == old(self).counts,
                self.generation == old(self).generation,
                self.match_agent == old(self).match_agent,
                self.match_round == old(self).match_round,
                self.match_start == old(self).match_start,
                start == old(self).rng@,
                forall|a: int|
                    0 <= a < agent ==> #[trigger] self.models@[a] == model_draw(
                        start,
                        a,
                        population as int,
                    ),
                forall|a: int|
                    0 <= a < agent ==> #[trigger] self.coins@[a] == coin_draw(start, a),
                forall|a: int| 0 <= a < agent ==> #[trigger] self.coins@[a] < UNIT_BITS_BOUND,
            decreases population - agent,
        {
            let drawn = match self.rng.next_index(others) {
                Some(d) => d,
                None => 0,
            };
            let model = if drawn >= agent {
                drawn + 1
            } else {
                drawn
            };
            let coin = self.rng.next_unit_bits();
            proof {
                assert(advance(advance_by(start, (2 * agent) as nat)) == advance_by(
                    start,
                    (2 * agent + 1) as nat,
                ));
            }
            self.models.set(agent, model);
            self.coins.set(agent, coin);
            agent = agent + 1;
        }
    }

    /// Applies one round of imitation to the whole population, records the
    /// new composition and advances the generation.
    ///
    /// Agent `a` takes its model's strategy if `adopt[a]`, and keeps its own
    /// otherwise. The update is synchronous: every decision reads the
    /// population as it was at the start of the round, so the outcome does
    /// not depend on the order the agents sit in.
    pub fn imitate(&mut self, adopt: &Vec<bool>)
        requires
            old(self).wf(),
            adopt@.len() == old(self).size(),
        ensures
            final(self).wf(),
            final(self).agents() == imitation(
                old(self).agents(),
                old(self).model_record(),
                adopt@,
            ),
            final(self).agents().len() == old(self).size(),
            forall|a: int|
                0 <= a < old(self).size() ==> #[trigger] final(self).agents()[a] == if adopt@[a] {
                    old(self).agents()[old(self).model_record()[a] as int]
                } else {
                    old(self).agents()[a]
                },
            final(self).size() == old(self).size(),
            final(self).strategies_in_game() == old(self).strategies_in_game(),
            final(self).matches() == old(self).matches(),
            final(self).rng_state() == old(self).rng_state(),
            final(self).pending_agent() == old(self).pending_agent(),
            final(self).pending_round() == old(self).pending_round(),
            final(self).matching_from() == old(self).matching_from(),
            final(self).model_record() == old(self).model_record(),
            final(self).coin_record() == old(self).coin_record(),
            final(self).generation_count() == next_generation(old(self).generation_count()),
            final(self).count_history().width() == old(self).count_history().width(),
            final(self).count_history().generations() == old(self).count_history().generations()
                + 1,
            forall|g: int|
                0 <= g < old(self).count_history().generations() ==> #[trigger] final(self).count_history().row(g) == old(self).count_history().row(g),
            is_tally(
                final(self).count_history().row(old(self).count_history().generations() as int),
                final(self).agents(),
            ),
    {
        let population = self.strategies.len();
        let ghost before = ids(self.strategies@);
        let ghost target = imitation(before, self.models@, adopt@);
        let mut agent: usize = 0;
        while agent < population
            invariant
                self.wf(),
                population == self.strategies@.len(),
                adopt@.len() == population,
                agent <= population,
                before == ids(self.strategies@),
                target == imitation(before, self.models@, adopt@),
                self.strategies@ == old(self).strategies@,
                self.strategy_count == old(self).strategy_count,
                self.matches_per_agent == old(self).matches_per_agent,
                self.counts == old(self).counts,
                self.generation == old(self).generation,
                self.rng@ == old(self).rng@,
                self.match_agent == old(self).match_agent,
                self.match_round == old(self).match_round,
                self.match_start == old(self).match_start,
                self.models@ == old(self).models@,
                self.coins@ == old(self).coins@,
                forall|a: int| 0 <= a < agent ==> (#[trigger] self.next_strategies@[a])@ == target[a],
            decreases population - agent,
        {
            let model = self.models[agent];
            let next = if adopt[agent] {
                self.strategies[model]
            } else {
                self.strategies[agent]
            };
            self.next_strategies.set(agent, next);
            agent = agent + 1;
        }
        proof {
            assert(ids(self.next_strategies@) =~= target);
            assert forall|a: int| 0 <= a < population implies (
            #[trigger] self.next_strategies@[a])@ < self.strategy_count by {
                assert(self.next_strategies@[a]@ == target[a]);
                let m = self.models@[a] as int;
                assert(self.strategies@[m]@ < self.strategy_count);
                assert(self.strategies@[a]@ < self.strategy_count);
            }
        }
        std::mem::swap(&mut self.strategies, &mut self.next_strategies);
        self.generation = self.generation.next();
        let row = tally(&self.strategies, self.strategy_count);
        proof {
            assert forall|i: int| 0 <= i < ids(self.strategies@).len() implies #[trigger] ids(
                self.strategies@,
            )[i] < row@.len() by {
                assert(ids(self.strategies@)[i] == self.strategies@[i]@);
            }
            lemma_tally_sums_to_population(row@, ids(self.strategies@));
        }
        let ghost old_counts = self.counts;
        self.counts.push_row(row.as_slice());
        proof {
            assert forall|g: int| 0 <= g < self.counts.generations() implies #[trigger] sum(
                self.counts.row(g),
            ) == population by {
                if g < old_counts.generations() {
                    assert(self.counts.row(g) == old_counts.row(g));
                }
            }
        }
    }

    /// Returns the number of agents.
    pub fn population(&self) -> (n: usize)
        ensures
            n == self.size(),
    {
        self.strategies.len()
    }

    /// Returns the number of strategies in the game being played.
    pub fn strategy_count(&self) -> (n: usize)
        ensures
            n == self.strategies_in_game(),
    {
        self.strategy_count
    }

    /// Returns how many opponents each agent meets per generation.
    pub fn matches_per_agent(&self) -> (m: usize)
        ensures
            m == self.matches(),
    {
        self.matches_per_agent
    }

    /// Returns how many generations have been run.
    pub fn generation(&self) -> (g: Generation)
        ensures
            g@ == self.generation_count(),
    {
        self.generation
    }

    /// Returns the strategy each agent currently plays. Only the composition
    /// is meaningful: agents have no identity beyond their strategy.
    pub fn strategies(&self) -> (s: &[StrategyId])
        ensures
            ids(s@) == self.agents(),
            s@.len() == self.size(),
    {
        self.strategies.as_slice()
    }

    /// Returns the model each agent drew in the latest model pass.
    pub fn models(&self) -> (m: &[usize])
        ensures
            m@ == self.model_record(),
    {
        self.models.as_slice()
    }

    /// Returns the coin each agent drew in the latest model pass, as the bits
    /// of a sample from `[0, 1)`: the sample is `bits / 2^53`.
    pub fn coins(&self) -> (c: &[u64])
        ensures
            c@ == self.coin_record(),
    {
        self.coins.as_slice()
    }

    /// Returns the composition of every generation so far: how many agents
    /// played each strategy, generation-major.
    pub fn counts(&self) -> (h: &History<usize>)
        ensures
            *h == self.count_history(),
    {
        &self.counts
    }
}

/// Imitation invents no strategy: every agent ends the round on its own
/// strategy or on its model's, so every strategy present afterwards was
/// present before, and the population keeps its size.
pub proof fn lemma_imitation_invents_nothing(agents: Seq<u8>, models: Seq<usize>, adopt: Seq<bool>)
    requires
        models.len() == agents.len(),
        adopt.len() == agents.len(),
        forall|a: int| 0 <= a < agents.len() ==> #[trigger] models[a] < agents.len(),
    ensures
        imitation(agents, models, adopt).len() == agents.len(),
        forall|a: int|
            0 <= a < agents.len() ==> #[trigger] imitation(agents, models, adopt)[a] == agents[a]
                || imitation(agents, models, adopt)[a] == agents[models[a] as int],
        forall|a: int|
            0 <= a < agents.len() ==> agents.contains(#[trigger] imitation(agents, models, adopt)[a]),
{
    assert forall|a: int| 0 <= a < agents.len() implies agents.contains(
        #[trigger] imitation(agents, models, adopt)[a],
    ) by {
        let b = if adopt[a] {
            models[a] as int
        } else {
            a
        };
        assert(imitation(agents, models, adopt)[a] == agents[b]);
    }
}

/// Every agent decides for itself: an agent that adopts takes its own
/// model's strategy, one that declines keeps its own, and what any other
/// agent decided makes no difference to it. Two rounds from the same
/// population and models whose decisions agree for agent `a` leave `a` on
/// the same strategy.
pub proof fn lemma_each_agent_decides_for_itself(
    agents: Seq<u8>,
    models: Seq<usize>,
    adopt: Seq<bool>,
    other: Seq<bool>,
    a: int,
)
    requires
        models.len() == agents.len(),
        adopt.len() == agents.len(),
        other.len() == agents.len(),
        0 <= a < agents.len(),
        models[a] < agents.len(),
    ensures
        adopt[a] ==> imitation(agents, models, adopt)[a] == agents[models[a] as int],
        !adopt[a] ==> imitation(agents, models, adopt)[a] == agents[a],
        adopt[a] == other[a] ==> imitation(agents, models, adopt)[a] == imitation(
            agents,
            models,
            other,
        )[a],
{
}

/// Every agent meets and copies from every other: a draw over the
/// `population - 1` others, mapped past the drawing agent, never gives the
/// agent itself, stays in the population, and reaches each other agent `b`
/// from some generator state.
pub proof fn lemma_every_other_agent_is_drawn(population: int, agent: int, b: int)
    requires
        2 <= population <= usize::MAX,
        0 <= agent < population,
        0 <= b < population,
        b != agent,
    ensures
        forall|state: u64|
            #![trigger index_draw(state, (population - 1) as usize)]
            shifted(index_draw(state, (population - 1) as usize) as int, agent) != agent
                && 0 <= shifted(index_draw(state, (population - 1) as usize) as int, agent)
                < population,
        exists|state: u64|
            shifted(#[trigger] index_draw(state, (population - 1) as usize) as int, agent) == b,
{
    let others = (population - 1) as usize;
    let d: int = if b > agent {
        b - 1
    } else {
        b
    };
    crate::rng::lemma_every_index_is_drawn(others, d as usize);
    let state = crate::rng::state_drawing(d as u64);
    assert(shifted(index_draw(state, others) as int, agent) == b);
    assert forall|state: u64|
        #![trigger index_draw(state, others)]
        shifted(index_draw(state, others) as int, agent) != agent && 0 <= shifted(
            index_draw(state, others) as int,
            agent,
        ) < population by {
        crate::rng::lemma_index_is_word_mod_len(state, others);
    }
}

/// A population that plays one strategy cannot change, whatever it draws and
/// whatever it decides: there is nothing else to copy.
pub proof fn lemma_uniform_population_stays_uniform(
    agents: Seq<u8>,
    models: Seq<usize>,
    adopt: Seq<bool>,
    s: u8,
)
    requires
        models.len() == agents.len(),
        adopt.len() == agents.len(),
        forall|a: int| 0 <= a < agents.len() ==> #[trigger] models[a] < agents.len(),
        forall|a: int| 0 <= a < agents.len() ==> #[trigger] agents[a] == s,
    ensures
        forall|a: int| 0 <= a < agents.len() ==> #[trigger] imitation(agents, models, adopt)[a] == s,
        forall|t: int| t != s ==> count_of(imitation(agents, models, adopt), t) == 0,
{
    let next = imitation(agents, models, adopt);
    assert forall|a: int| 0 <= a < agents.len() implies #[trigger] next[a] == s by {
        if adopt[a] {
            assert(agents[models[a] as int] == s);
        }
    }
    assert forall|t: int| t != s implies count_of(next, t) == 0 by {
        lemma_count_absent(next, t);
    }
}

/// A strategy that no agent plays has a count of zero.
proof fn lemma_count_absent(xs: Seq<u8>, t: int)
    requires
        forall|a: int| 0 <= a < xs.len() ==> #[trigger] xs[a] as int != t,
    ensures
        count_of(xs, t) == 0,
    decreases xs.len(),
{
    if xs.len() > 0 {
        assert forall|a: int| 0 <= a < xs.drop_last().len() implies #[trigger] xs.drop_last()[a]
            as int != t by {
            assert(xs.drop_last()[a] == xs[a]);
        }
        lemma_count_absent(xs.drop_last(), t);
    }
}

/// Draws compose: `a` draws followed by `b` draws are `a + b` draws.
pub proof fn lemma_draws_compose(start: u64, a: nat, b: nat)
    ensures
        advance_by(advance_by(start, a), b) == advance_by(start, a + b),
    decreases b,
{
    if b > 0 {
        lemma_draws_compose(start, a, (b - 1) as nat);
    }
}

/// A generation spends a fixed number of draws whatever it decides: one per
/// match, then a model and a coin per agent.
pub proof fn lemma_generation_draws(start: u64, population: nat, matches: nat)
    ensures
        advance_by(advance_by(start, population * matches), 2 * population) == advance_by(
            start,
            population * matches + 2 * population,
        ),
{
    lemma_draws_compose(start, population * matches, 2 * population);
}

/// The models every agent draws in a model pass that starts from `state`.
pub open spec fn models_from(state: u64, population: nat) -> Seq<usize> {
    Seq::new(population, |a: int| model_draw(state, a, population as int) as usize)
}

/// The agents and the generator's state after one generation from `agents`
/// and `state`: a full matching pass, a model pass, then the update with the
/// given adoption decisions.
pub open spec fn generation_outcome(agents: Seq<u8>, state: u64, matches: nat, adopt: Seq<bool>) -> (
    Seq<u8>,
    u64,
) {
    let population = agents.len();
    let after_matches = advance_by(state, population * matches);
    (
        imitation(agents, models_from(after_matches, population), adopt),
        advance_by(after_matches, 2 * population),
    )
}

/// The agents and the generator's state after running one generation per
/// entry of `decisions`, each entry the adoption decisions of its
/// generation.
pub open spec fn run_outcome(
    agents: Seq<u8>,
    state: u64,
    matches: nat,
    decisions: Seq<Seq<bool>>,
) -> (Seq<u8>, u64)
    decreases decisions.len(),
{
    if decisions.len() == 0 {
        (agents, state)
    } else {
        let (before_agents, before_state) = run_outcome(agents, state, matches, decisions.drop_last());
        generation_outcome(before_agents, before_state, matches, decisions.last())
    }
}

/// One generation, as the three phases carry it out: a population in step
/// with a freshly opened matching pass that draws all its matches, draws its
/// models and imitates ends where `generation_outcome` says.
pub proof fn lemma_phases_make_a_generation(
    agents: Seq<u8>,
    state: u64,
    matches: nat,
    adopt: Seq<bool>,
    models: Seq<usize>,
    final_agents: Seq<u8>,
    final_state: u64,
)
    requires
        models == models_from(advance_by(state, agents.len() * matches), agents.len()),
        final_agents == imitation(agents, models, adopt),
        final_state == advance_by(advance_by(state, agents.len() * matches), 2 * agents.len()),
    ensures
        (final_agents, final_state) == generation_outcome(agents, state, matches, adopt),
{
}

/// Whole-run reproducibility: from the same agents and the same generator
/// state, the same adoption decisions lead to the same agents and the same
/// state after any number of generations. The seed and the decisions are
/// all a run depends on.
pub proof fn lemma_run_reproducible(
    agents_a: Seq<u8>,
    state_a: u64,
    agents_b: Seq<u8>,
    state_b: u64,
    matches: nat,
    decisions: Seq<Seq<bool>>,
)
    requires
        agents_a == agents_b,
        state_a == state_b,
    ensures
        run_outcome(agents_a, state_a, matches, decisions) == run_outcome(
            agents_b,
            state_b,
            matches,
            decisions,
        ),
        generation_outcome(agents_a, state_a, matches, decisions.first()) == generation_outcome(
            agents_b,
            state_b,
            matches,
            decisions.first(),
        ),
{
}

/// Reproducibility: a generation's draws are a function of the generator's
/// state alone, so two runs that reach the same state draw the same
/// opponents, models and coins.
pub proof fn lemma_same_state_same_draws(
    start_a: u64,
    start_b: u64,
    population: int,
    matches: int,
    j: int,
    agent: int,
)
    requires
        start_a == start_b,
    ensures
        opponent_draw(start_a, j, matches, population) == opponent_draw(
            start_b,
            j,
            matches,
            population,
        ),
        model_draw(start_a, agent, population) == model_draw(start_b, agent, population),
        coin_draw(start_a, agent) == coin_draw(start_b, agent),
{
}

} // verus!
