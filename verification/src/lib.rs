//! Evolutionary game theory simulation core: the verified part.
//!
//! Everything here works on integers, indices and generic payoff entries,
//! so every structural claim the simulations rely on is checked by Verus.

pub mod composition;
pub mod counter;
pub mod decimal;
pub mod error;
pub mod game;
pub mod history;
pub mod order;
pub mod prelude;
pub mod rng;
pub mod types;
pub mod wellmixed;
