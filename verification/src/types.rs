//! Domain newtypes shared across the simulation modules.
//!
//! Each of these wraps a single integer whose meaning would otherwise be
//! carried by a comment. A `usize` that is really a strategy index and a
//! `usize` that is really an agent index are interchangeable to the compiler
//! and never to the simulation, so they get distinct types.
//!
//! The wrapped value is private: constructing one goes through `From` or
//! `new`, and reading it back through `get`, `index` or a `From` impl in the
//! other direction. Arithmetic is deliberately not provided; the one counter
//! that advances (`Generation`) does so through a named method.

use crate::decimal::{decimal, write_decimal};
use vstd::prelude::*;

verus! {

/// Which pure strategy an agent plays, as an index into the payoff matrix.
///
/// One byte wide, so a grid of strategies is a plain byte buffer. 256
/// distinct strategies is far beyond anything the games here need.
///
/// Ordering is by raw value (see the `order` module).
#[derive(Debug, Clone, Copy, PartialEq, Eq, Structural, Ord, Hash)]
pub struct StrategyId(u8);

impl View for StrategyId {
    type V = u8;

    closed spec fn view(&self) -> u8 {
        self.0
    }
}

impl StrategyId {
    /// Wraps a raw strategy index. Whether it exists in a given game is
    /// checked where the two meet, not here.
    pub fn new(raw: u8) -> (id: Self)
        ensures
            id@ == raw,
    {
        StrategyId(raw)
    }

    /// Returns the raw byte.
    pub fn get(self) -> (raw: u8)
        ensures
            raw == self@,
    {
        self.0
    }

    /// Returns the id as a `usize`, for indexing a payoff matrix or a share
    /// buffer.
    pub fn index(self) -> (i: usize)
        ensures
            i == self@ as usize,
    {
        self.0 as usize
    }

    /// Renders the bare number, for use inside messages.
    pub fn to_string(&self) -> (s: String)
        ensures
            s@ == decimal(self@ as nat),
    {
        let mut s = String::new();
        write_decimal(self.0 as u64, &mut s);
        s
    }
}

/// Seed of a stochastic run. Every `u64` is a valid seed, and the same seed
/// with the same parameters reproduces a run exactly.
#[derive(Debug, Clone, Copy, PartialEq, Eq, Structural, Hash)]
pub struct Seed(u64);

impl View for Seed {
    type V = u64;

    closed spec fn view(&self) -> u64 {
        self.0
    }
}

impl Seed {
    /// Wraps a raw seed value.
    pub fn new(raw: u64) -> (seed: Self)
        ensures
            seed@ == raw,
    {
        Seed(raw)
    }

    /// Returns the raw seed, for handing to the generator that consumes it.
    pub fn get(self) -> (raw: u64)
        ensures
            raw == self@,
    {
        self.0
    }

    /// Renders the bare number, for use inside messages.
    pub fn to_string(&self) -> (s: String)
        ensures
            s@ == decimal(self@ as nat),
    {
        let mut s = String::new();
        write_decimal(self.0, &mut s);
        s
    }
}

/// How many update steps a simulation has taken.
///
/// Generation 0 is the initial population, recorded before the first step,
/// so a generation doubles as an index into a share history.
#[derive(Debug, Clone, Copy, PartialEq, Eq, Structural, Ord, Hash)]
pub struct Generation(u32);

impl View for Generation {
    type V = u32;

    closed spec fn view(&self) -> u32 {
        self.0
    }
}

/// The generation after `g`: one more, saturating at `u32::MAX`.
pub open spec fn next_generation(g: u32) -> u32 {
    if g < u32::MAX {
        (g + 1) as u32
    } else {
        g
    }
}

impl Generation {
    /// The initial population, before any update has been applied.
    pub fn zero() -> (g: Self)
        ensures
            g@ == 0,
    {
        Generation(0)
    }

    /// Wraps a raw generation count.
    pub fn new(raw: u32) -> (g: Self)
        ensures
            g@ == raw,
    {
        Generation(raw)
    }

    /// Returns the raw count.
    pub fn get(self) -> (raw: u32)
        ensures
            raw == self@,
    {
        self.0
    }

    /// Returns the generation as a `usize`, for indexing a share history.
    pub fn index(self) -> (i: usize)
        ensures
            i == self@ as usize,
    {
        self.0 as usize
    }

    /// Returns the following generation.
    ///
    /// Saturates at `u32::MAX` rather than panicking or wrapping, so the
    /// counter stays monotone and comparisons between generations stay
    /// meaningful.
    pub fn next(self) -> (g: Self)
        ensures
            g@ == next_generation(self@),
    {
        Generation(self.0.saturating_add(1))
    }

    /// Renders the bare number, for use inside messages.
    pub fn to_string(&self) -> (s: String)
        ensures
            s@ == decimal(self@ as nat),
    {
        let mut s = String::new();
        write_decimal(self.0 as u64, &mut s);
        s
    }
}

/// An id is its raw byte: two ids are equal exactly when their bytes are.
pub proof fn lemma_id_is_its_byte(a: StrategyId, b: StrategyId)
    ensures
        (a == b) == (a@ == b@),
{
}

/// A seed is its raw value: two seeds are equal exactly when their values
/// are.
pub proof fn lemma_seed_is_its_value(a: Seed, b: Seed)
    ensures
        (a == b) == (a@ == b@),
{
}

/// A generation is its raw count: two generations are equal exactly when
/// their counts are.
pub proof fn lemma_generation_is_its_count(a: Generation, b: Generation)
    ensures
        (a == b) == (a@ == b@),
{
}

/// Advancing a generation never moves it backwards, and moves it forwards by
/// exactly one unless it is already the last representable one.
pub proof fn lemma_next_is_monotone(g: Generation)
    ensures
        next_generation(g@) >= g@,
        g@ < u32::MAX ==> next_generation(g@) == g@ + 1,
        g@ == u32::MAX ==> next_generation(g@) == g@,
{
}

impl From<u8> for StrategyId {
    fn from(raw: u8) -> (id: Self)
        ensures
            id@ == raw,
    {
        StrategyId(raw)
    }
}

impl vstd::std_specs::convert::FromSpecImpl<u8> for StrategyId {
    open spec fn obeys_from_spec() -> bool {
        true
    }

    closed spec fn from_spec(v: u8) -> Self {
        StrategyId(v)
    }
}

impl From<StrategyId> for u8 {
    fn from(id: StrategyId) -> (raw: u8)
        ensures
            raw == id@,
    {
        id.0
    }
}

impl vstd::std_specs::convert::FromSpecImpl<StrategyId> for u8 {
    open spec fn obeys_from_spec() -> bool {
        true
    }

    open spec fn from_spec(v: StrategyId) -> u8 {
        v@
    }
}

impl From<u64> for Seed {
    fn from(raw: u64) -> (seed: Self)
        ensures
            seed@ == raw,
    {
        Seed(raw)
    }
}

impl vstd::std_specs::convert::FromSpecImpl<u64> for Seed {
    open spec fn obeys_from_spec() -> bool {
        true
    }

    closed spec fn from_spec(v: u64) -> Self {
        Seed(v)
    }
}

impl From<Seed> for u64 {
    fn from(seed: Seed) -> (raw: u64)
        ensures
            raw == seed@,
    {
        seed.0
    }
}

impl vstd::std_specs::convert::FromSpecImpl<Seed> for u64 {
    open spec fn obeys_from_spec() -> bool {
        true
    }

    open spec fn from_spec(v: Seed) -> u64 {
        v@
    }
}

impl From<u32> for Generation {
    fn from(raw: u32) -> (g: Self)
        ensures
            g@ == raw,
    {
        Generation(raw)
    }
}

impl vstd::std_specs::convert::FromSpecImpl<u32> for Generation {
    open spec fn obeys_from_spec() -> bool {
        true
    }

    closed spec fn from_spec(v: u32) -> Self {
        Generation(v)
    }
}

impl From<Generation> for u32 {
    fn from(g: Generation) -> (raw: u32)
        ensures
            raw == g@,
    {
        g.0
    }
}

impl vstd::std_specs::convert::FromSpecImpl<Generation> for u32 {
    open spec fn obeys_from_spec() -> bool {
        true
    }

    open spec fn from_spec(v: Generation) -> u32 {
        v@
    }
}

} // verus!
