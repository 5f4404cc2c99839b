# sim-core

The simulation core of an evolutionary game theory lab: populations of agents
play symmetric games (Hawk-Dove, Rock-Paper-Scissors, custom matrices) and
strategies spread by imitation. Every stochastic run is reproducible from its
seed.

## Layout

- `src/` - the verified library (Verus):
  - `types` - `StrategyId`, `Seed`, `Generation`;
  - `game` - payoff matrices of any entry type, row = focal player, with the
    validation order of a matrix written on paper;
  - `rng` - the seeded generator every draw comes from;
  - `history` - the flat, generation-major record both simulations keep;
  - `composition` - counting agents per strategy, laying a population out
    from counts, handing out the agents rounding leaves over;
  - `wellmixed` - the agents of a well-mixed population: matching,
    model and coin draws, the synchronous imitation update, per-generation
    counts;
  - `counter`, `decimal`, `error` - a stepping counter, decimal rendering of
    ids and counts, typed errors.
- `app/` - the wasm boundary and the floating-point arithmetic around the
  core: payoff sums, the Fermi adoption rule, share validation and the
  replicator ODE integrated with RK4.
- `tests/` - tests of the library.
