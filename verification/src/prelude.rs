//! Shared vocabulary for the simulation modules: errors, ids, seeds and
//! generations, named the same way everywhere. Engines are deliberately not
//! re-exported, so importing the prelude can never tie two simulations
//! together.

pub use crate::error::{GameError, SimError};
pub use crate::types::{Generation, Seed, StrategyId};
