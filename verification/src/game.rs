//! Payoff matrices: a symmetric N-strategy game held as its matrix.
//!
//! **The row is the focal player and the column is the opponent**, and
//! `payoff(focal, opponent)` is what the focal player collects from that
//! meeting. A transposed read would silently invert which strategy is doing
//! well, so the convention is part of every contract below.
//!
//! Entries live in one flat row-major buffer, so a lookup is one index into
//! contiguous memory. The nested form appears only at construction, where it
//! is the natural shape to write a matrix in. The entry type is a parameter:
//! the layout, the bounds and the validation order do not depend on it.

use crate::error::GameError;
use crate::types::StrategyId;
use vstd::prelude::*;
use vstd::slice::slice_subrange;

verus! {

/// Fewest strategies that still make a game: with one strategy there is
/// nothing to select between.
pub const MIN_STRATEGIES: usize = 2;

/// Most strategies a `StrategyId` can name, since it is one byte wide.
pub const MAX_STRATEGIES: usize = 256;

/// Whether `admissible` marks the entry at `r`, `c` as a usable payoff (a
/// finite number). An entry it does not cover is not usable.
pub open spec fn entry_admissible(admissible: Seq<Seq<bool>>, r: int, c: int) -> bool {
    &&& 0 <= r < admissible.len()
    &&& 0 <= c < admissible[r].len()
    &&& admissible[r][c]
}

/// Whether row `r` has exactly `n` entries, all usable.
pub open spec fn row_sound<P>(rows: Seq<Seq<P>>, admissible: Seq<Seq<bool>>, r: int) -> bool {
    &&& rows[r].len() == rows.len()
    &&& forall|c: int| 0 <= c < rows.len() ==> entry_admissible(admissible, r, c)
}

/// Whether the rows make a playable matrix: between `MIN_STRATEGIES` and
/// `MAX_STRATEGIES` rows, each as long as there are rows, every entry usable.
pub open spec fn rows_playable<P>(rows: Seq<Seq<P>>, admissible: Seq<Seq<bool>>) -> bool {
    &&& MIN_STRATEGIES <= rows.len() <= MAX_STRATEGIES
    &&& forall|r: int| 0 <= r < rows.len() ==> row_sound(rows, admissible, r)
}

/// The contents of a vector of rows, row by row.
pub open spec fn nested<T>(rows: Seq<Vec<T>>) -> Seq<Seq<T>> {
    rows.map_values(|v: Vec<T>| v@)
}

/// The flat row-major layout of an `n` by `n` matrix given as rows.
pub open spec fn flatten<P>(rows: Seq<Seq<P>>, n: nat, len: nat) -> Seq<P> {
    Seq::new(len, |k: int| rows[k / (n as int)][k % (n as int)])
}

/// A symmetric game, held as its payoff matrix.
///
/// A `Game` that exists is playable: it has between `MIN_STRATEGIES` and
/// `MAX_STRATEGIES` strategies, it is square, and every entry passed the
/// admissibility check it was built with. Construction is the only place
/// that can fail, which is what lets the per-generation loops index it
/// without revalidating.
#[derive(Debug, PartialEq)]
pub struct Game<P> {
    /// `strategy_count * strategy_count` entries, row-major.
    payoffs: Vec<P>,
    /// Side length; `payoffs.len()` is its square.
    strategy_count: usize,
}

impl<P> Game<P> {
    /// How many strategies the game is played with.
    pub closed spec fn count(&self) -> nat {
        self.strategy_count as nat
    }

    /// The payoff to a focal player of strategy `focal` meeting `opponent`.
    pub closed spec fn entry(&self, focal: int, opponent: int) -> P {
        self.payoffs@[focal * (self.strategy_count as int) + opponent]
    }

    /// The matrix is square and of a playable size.
    #[verifier::type_invariant]
    closed spec fn well_formed(self) -> bool {
        &&& MIN_STRATEGIES <= self.strategy_count <= MAX_STRATEGIES
        &&& self.payoffs@.len() == self.strategy_count * self.strategy_count
    }

    /// Returns how many strategies the game is played with.
    pub fn strategy_count(&self) -> (n: usize)
        ensures
            n == self.count(),
            MIN_STRATEGIES <= n <= MAX_STRATEGIES,
    {
        proof {
            use_type_invariant(self);
        }
        self.strategy_count
    }

    /// Reports whether `strategy` is one of this game's strategies.
    pub fn contains(&self, strategy: StrategyId) -> (b: bool)
        ensures
            b == (strategy@ < self.count()),
    {
        strategy.index() < self.strategy_count
    }

    /// Returns everything a player of `focal` can collect, indexed by the
    /// opponent's strategy, or `None` if `focal` is not in this game.
    pub fn row(&self, focal: StrategyId) -> (r: Option<&[P]>)
        ensures
            r is Some <==> focal@ < self.count(),
            r matches Some(s) ==> s@.len() == self.count() && forall|o: int|
                0 <= o < self.count() ==> #[trigger] s@[o] == self.entry(focal@ as int, o),
    {
        proof {
            use_type_invariant(self);
        }
        let n = self.strategy_count;
        let f = focal.index();
        if f >= n {
            return None;
        }
        proof {
            lemma_cell_in_matrix(f as int, 0, n as int);
            lemma_cell_in_matrix(f as int, n as int - 1, n as int);
        }
        let start = f * n;
        let s = slice_subrange(self.payoffs.as_slice(), start, start + n);
        assert forall|o: int| 0 <= o < self.count() implies #[trigger] s@[o] == self.entry(
            f as int,
            o,
        ) by {
            assert(s@[o] == self.payoffs@[start + o]);
        }
        Some(s)
    }
}

impl<P: Copy> Game<P> {
    /// Builds a game from a matrix written the way it reads on paper, one row
    /// per focal strategy, with `admissible` marking which entries are usable
    /// payoffs (for numbers: which are finite).
    ///
    /// The matrix is validated once, in this order: the number of rows, then
    /// each row in turn, and within a row its length and then each entry from
    /// left to right. The first defect found is the error.
    pub fn from_rows(rows: &Vec<Vec<P>>, admissible: &Vec<Vec<bool>>) -> (r: Result<
        Self,
        GameError,
    >)
        ensures
            r is Ok <==> rows_playable(nested(rows@), nested(admissible@)),
            ({
                let n = rows@.len();
                let shape = nested(rows@);
                let marks = nested(admissible@);
                match r {
                    Ok(game) => game.count() == n && forall|f: int, o: int|
                        0 <= f < n && 0 <= o < n ==> #[trigger] game.entry(f, o)
                            == rows@[f]@[o],
                    Err(GameError::TooFewStrategies { found, minimum }) => found == n && minimum
                        == MIN_STRATEGIES && n < MIN_STRATEGIES,
                    Err(GameError::TooManyStrategies { found, maximum }) => found == n && maximum
                        == MAX_STRATEGIES && n > MAX_STRATEGIES,
                    Err(GameError::NotSquare { row, found, expected }) => {
                        &&& MIN_STRATEGIES <= n <= MAX_STRATEGIES
                        &&& row < n
                        &&& forall|p: int| 0 <= p < row ==> row_sound(shape, marks, p)
                        &&& found == rows@[row as int]@.len()
                        &&& found != n
                        &&& expected == n
                    },
                    Err(GameError::NonFiniteEntry { row, col }) => {
                        &&& MIN_STRATEGIES <= n <= MAX_STRATEGIES
                        &&& row < n
                        &&& col < n
                        &&& forall|p: int| 0 <= p < row ==> row_sound(shape, marks, p)
                        &&& rows@[row as int]@.len() == n
                        &&& forall|c: int|
                            0 <= c < col ==> entry_admissible(marks, row as int, c)
                        &&& !entry_admissible(marks, row as int, col as int)
                    },
                }
            }),
    {
        let n = rows.len();
        if n < MIN_STRATEGIES {
            return Err(GameError::TooFewStrategies { found: n, minimum: MIN_STRATEGIES });
        }
        if n > MAX_STRATEGIES {
            return Err(GameError::TooManyStrategies { found: n, maximum: MAX_STRATEGIES });
        }
        let ghost shape = nested(rows@);
        let ghost marks = nested(admissible@);
        let mut payoffs: Vec<P> = Vec::new();
        let mut r: usize = 0;
        while r < n
            invariant
                n == rows@.len(),
                MIN_STRATEGIES <= n <= MAX_STRATEGIES,
                r <= n,
                shape == nested(rows@),
                marks == nested(admissible@),
                forall|p: int| 0 <= p < r ==> row_sound(shape, marks, p),
                payoffs@ == flatten(shape, n as nat, (r * n) as nat),
            decreases n - r,
        {
            let row = &rows[r];
            if row.len() != n {
                proof {
                    assert(shape[r as int] == rows@[r as int]@);
                    assert(!row_sound(shape, marks, r as int));
                }
                return Err(GameError::NotSquare { row: r, found: row.len(), expected: n });
            }
            let mut c: usize = 0;
            while c < n
                invariant
                    n == rows@.len(),
                    MIN_STRATEGIES <= n <= MAX_STRATEGIES,
                    r < n,
                    c <= n,
                    row@ == rows@[r as int]@,
                    row@.len() == n,
                    shape == nested(rows@),
                    marks == nested(admissible@),
                    forall|p: int| 0 <= p < r ==> row_sound(shape, marks, p),
                    forall|q: int| 0 <= q < c ==> entry_admissible(marks, r as int, q),
                    payoffs@ == flatten(shape, n as nat, (r * n + c) as nat),
                decreases n - c,
            {
                let ok = r < admissible.len() && c < admissible[r].len() && admissible[r][c];
                if !ok {
                    proof {
                        assert(shape[r as int] == rows@[r as int]@);
                        assert(!entry_admissible(marks, r as int, c as int));
                        assert(!row_sound(shape, marks, r as int));
                    }
                    return Err(GameError::NonFiniteEntry { row: r, col: c });
                }
                proof {
                    lemma_cell_in_matrix(r as int, c as int, n as int);
                    lemma_flat_position(r as int, c as int, n as int);
                }
                let ghost before = payoffs@;
                payoffs.push(row[c]);
                proof {
                    let k = (r * n + c) as int;
                    assert(payoffs@ =~= flatten(shape, n as nat, (k + 1) as nat)) by {
                        assert forall|i: int| 0 <= i < k + 1 implies #[trigger] payoffs@[i]
                            == flatten(shape, n as nat, (k + 1) as nat)[i] by {
                            if i < k {
                                assert(payoffs@[i] == before[i]);
                            }
                        }
                    }
                }
                c = c + 1;
            }
            assert(row_sound(shape, marks, r as int));
            r = r + 1;
            proof {
                assert(((r - 1) * n + n) as int == (r * n) as int) by (nonlinear_arith);
            }
        }
        let game = Game { payoffs, strategy_count: n };
        proof {
            assert(game.payoffs@.len() == n * n);
            assert forall|f: int, o: int| 0 <= f < n && 0 <= o < n implies #[trigger] game.entry(
                f,
                o,
            ) == rows@[f]@[o] by {
                lemma_cell_in_matrix(f, o, n as int);
                lemma_flat_position(f, o, n as int);
            }
        }
        Ok(game)
    }

    /// Returns the payoff to the focal player when `focal` meets `opponent`,
    /// or `None` if either strategy is not in this game.
    pub fn payoff(&self, focal: StrategyId, opponent: StrategyId) -> (r: Option<P>)
        ensures
            r is Some <==> (focal@ < self.count() && opponent@ < self.count()),
            r matches Some(p) ==> p == self.entry(focal@ as int, opponent@ as int),
    {
        proof {
            use_type_invariant(self);
        }
        let n = self.strategy_count;
        let f = focal.index();
        let o = opponent.index();
        if f >= n || o >= n {
            return None;
        }
        proof {
            lemma_cell_in_matrix(f as int, o as int, n as int);
        }
        Some(self.payoffs[f * n + o])
    }
}

impl<P: Copy> Clone for Game<P> {
    /// Copies the matrix entry for entry.
    fn clone(&self) -> (g: Self)
        ensures
            g.count() == self.count(),
            forall|f: int, o: int| #[trigger] g.entry(f, o) == self.entry(f, o),
    {
        proof {
            use_type_invariant(self);
        }
        let mut payoffs: Vec<P> = Vec::new();
        let mut i: usize = 0;
        while i < self.payoffs.len()
            invariant
                i <= self.payoffs@.len(),
                payoffs@ == self.payoffs@.subrange(0, i as int),
            decreases self.payoffs@.len() - i,
        {
            payoffs.push(self.payoffs[i]);
            i = i + 1;
        }
        assert(payoffs@ =~= self.payoffs@);
        Game { payoffs, strategy_count: self.strategy_count }
    }
}

/// Cell `f`, `o` of an `n` by `n` matrix lies inside its flat buffer.
proof fn lemma_cell_in_matrix(f: int, o: int, n: int)
    requires
        0 <= f < n,
        0 <= o < n,
    ensures
        n <= MAX_STRATEGIES ==> n * n <= MAX_STRATEGIES * MAX_STRATEGIES,
        0 <= f * n,
        f * n + o < n * n,
        f * n + n <= n * n,
{
    vstd::arithmetic::mul::lemma_mul_nonnegative(f, n);
    vstd::arithmetic::mul::lemma_mul_inequality(f + 1, n, n);
    assert((f + 1) * n == f * n + n) by (nonlinear_arith);
    if n <= MAX_STRATEGIES {
        vstd::arithmetic::mul::lemma_mul_upper_bound(n, 256, n, 256);
    }
}

/// Position `f * n + o` of the flat buffer is row `f`, column `o`.
proof fn lemma_flat_position(f: int, o: int, n: int)
    requires
        0 <= f < n,
        0 <= o < n,
    ensures
        (f * n + o) / n == f,
        (f * n + o) % n == o,
{
    vstd::arithmetic::div_mod::lemma_fundamental_div_mod_converse(f * n + o, n, f, o);
}

} // verus!
