//! Per-generation records kept as one flat, generation-major buffer.
//!
//! Generation `g` occupies the `width` entries starting at `g * width`. One
//! flat buffer rather than a vector of rows because it crosses to the
//! frontend as a single typed array, read by stride; a strategy-major layout
//! would have the right length and the right sums and would draw nonsense.
//! The agent-based run and the replicator trajectory both record into this
//! structure, so the two can be overlaid without reshaping either.

use crate::types::Generation;
use vstd::prelude::*;
use vstd::slice::slice_subrange;

verus! {

/// A generation-major record of equally wide rows, never empty: generation 0
/// is recorded when the history is created.
#[derive(Debug)]
pub struct History<T> {
    entries: Vec<T>,
    width: usize,
}

impl<T> History<T> {
    /// Every entry recorded so far, generation-major.
    pub closed spec fn entries(&self) -> Seq<T> {
        self.entries@
    }

    /// How many entries make up one generation's row.
    pub closed spec fn width(&self) -> nat {
        self.width as nat
    }

    /// The history is made of at least one whole row of a positive width.
    pub open spec fn wf(&self) -> bool {
        &&& self.width() >= 1
        &&& self.entries().len() % self.width() == 0
        &&& self.entries().len() >= self.width()
    }

    /// Every history is well formed: it is created with one whole row and
    /// only ever grows by whole rows.
    #[verifier::type_invariant]
    spec fn whole_rows(self) -> bool {
        self.wf()
    }

    /// How many generations are recorded.
    pub open spec fn generations(&self) -> nat {
        self.entries().len() / self.width()
    }

    /// The row of generation `g`.
    pub open spec fn row(&self, g: int) -> Seq<T> {
        self.entries().subrange(g * self.width(), g * self.width() + self.width())
    }

    /// Generation 0 is `first`.
    pub fn new(first: Vec<T>) -> (h: Self)
        requires
            first@.len() >= 1,
        ensures
            h.wf(),
            h.width() == first@.len(),
            h.entries() == first@,
            h.generations() == 1,
    {
        let width = first.len();
        proof {
            vstd::arithmetic::div_mod::lemma_mod_self_0(width as int);
            vstd::arithmetic::div_mod::lemma_div_by_self(width as int);
        }
        History { entries: first, width }
    }

    /// Returns how many entries one generation's row holds.
    pub fn width_of(&self) -> (w: usize)
        ensures
            w == self.width(),
    {
        self.width
    }

    /// Returns every entry recorded so far, generation-major.
    pub fn as_slice(&self) -> (s: &[T])
        ensures
            s@ == self.entries(),
    {
        self.entries.as_slice()
    }

    /// Returns how many generations are recorded.
    pub fn recorded_generations(&self) -> (n: usize)
        ensures
            self.wf(),
            n == self.generations(),
            n >= 1,
    {
        proof {
            use_type_invariant(self);
            lemma_generations_at_least_one(self.entries().len() as int, self.width() as int);
        }
        self.entries.len() / self.width
    }

    /// Returns the row of `generation`, or `None` if that generation has not
    /// been recorded.
    pub fn shares_at(&self, generation: Generation) -> (r: Option<&[T]>)
        ensures
            self.wf(),
            r is Some <==> generation@ < self.generations(),
            r matches Some(s) ==> s@ == self.row(generation@ as int),
    {
        proof {
            use_type_invariant(self);
        }
        let width = self.width;
        let len = self.entries.len();
        let g = generation.index();
        proof {
            lemma_row_fits(g as int, width as int, len as int);
        }
        let base = match g.checked_mul(width) {
            Some(b) => b,
            None => {
                return None;
            },
        };
        let end = match base.checked_add(width) {
            Some(e) => e,
            None => {
                return None;
            },
        };
        if end <= len {
            Some(slice_subrange(self.entries.as_slice(), base, end))
        } else {
            None
        }
    }

    /// Returns the row of the latest recorded generation.
    pub fn current(&self) -> (s: &[T])
        ensures
            self.wf(),
            s@ == self.row(self.generations() - 1),
            s@.len() == self.width(),
    {
        proof {
            use_type_invariant(self);
        }
        let width = self.width;
        let len = self.entries.len();
        proof {
            lemma_last_row(len as int, width as int);
        }
        slice_subrange(self.entries.as_slice(), len - width, len)
    }
}

impl<T: Copy> Clone for History<T> {
    /// Copies every recorded row.
    fn clone(&self) -> (h: Self)
        ensures
            h.entries() == self.entries(),
            h.width() == self.width(),
    {
        let mut entries: Vec<T> = Vec::new();
        let mut i: usize = 0;
        while i < self.entries.len()
            invariant
                i <= self.entries@.len(),
                entries@ == self.entries@.subrange(0, i as int),
            decreases self.entries@.len() - i,
        {
            entries.push(self.entries[i]);
            i = i + 1;
        }
        assert(entries@ =~= self.entries@);
        proof {
            use_type_invariant(self);
        }
        History { entries, width: self.width }
    }
}

impl<T: Copy> History<T> {
    /// Appends one generation's row.
    pub fn push_row(&mut self, row: &[T])
        requires
            row@.len() == old(self).width(),
        ensures
            final(self).wf(),
            final(self).width() == old(self).width(),
            final(self).entries() == old(self).entries() + row@,
            final(self).generations() == old(self).generations() + 1,
            final(self).row(old(self).generations() as int) == row@,
            forall|g: int|
                0 <= g < old(self).generations() ==> #[trigger] final(self).row(g) == old(
                    self,
                ).row(g),
    {
        proof {
            use_type_invariant(&*self);
        }
        let width = self.width;
        let n = row.len();
        // Swap a one-row stand-in into place, so the recorded entries can be
        // extended as a plain vector and put back as a whole history.
        let mut stand_in: Vec<T> = Vec::new();
        let mut i: usize = 0;
        while i < n
            invariant
                n == row@.len(),
                i <= n,
                stand_in@ == row@.subrange(0, i as int),
            decreases n - i,
        {
            stand_in.push(row[i]);
            i = i + 1;
        }
        assert(stand_in@ =~= row@);
        proof {
            vstd::arithmetic::div_mod::lemma_mod_self_0(width as int);
        }
        let mut taken = History { entries: stand_in, width };
        std::mem::swap(self, &mut taken);
        let History { entries: mut entries, width: _ } = taken;
        let ghost before = entries@;
        assert(before == old(self).entries());
        let mut i: usize = 0;
        while i < n
            invariant
                n == row@.len(),
                i <= n,
                entries@ == before + row@.subrange(0, i as int),
            decreases n - i,
        {
            entries.push(row[i]);
            i = i + 1;
            assert(row@.subrange(0, i as int) == row@.subrange(0, (i - 1) as int).push(
                row@[(i - 1) as int],
            ));
        }
        assert(row@.subrange(0, n as int) == row@);
        proof {
            let w = width as int;
            let old_len = before.len() as int;
            lemma_append_row(old_len, w);
        }
        *self = History { entries, width };
        proof {
            let w = width as int;
            let old_len = before.len() as int;
            let k = old_len / w;
            assert(self.entries@.subrange(k * w, k * w + w) == row@);
            assert forall|g: int| 0 <= g < k implies #[trigger] self.row(g) == old(self).row(
                g,
            ) by {
                lemma_row_inside(g, k, w);
            }
        }
    }
}

/// A history with at least one whole row records at least one generation.
proof fn lemma_generations_at_least_one(len: int, w: int)
    requires
        w >= 1,
        len >= w,
    ensures
        len / w >= 1,
{
    vstd::arithmetic::div_mod::lemma_div_is_ordered(w, len, w);
    vstd::arithmetic::div_mod::lemma_div_by_self(w);
}

/// Generation `g` is recorded exactly when its whole row lies inside the
/// buffer.
proof fn lemma_row_fits(g: int, w: int, len: int)
    requires
        g >= 0,
        w >= 1,
        len >= 0,
    ensures
        (g * w + w <= len) <==> (g < len / w),
        g * w >= 0,
{
    vstd::arithmetic::mul::lemma_mul_nonnegative(g, w);
    vstd::arithmetic::div_mod::lemma_fundamental_div_mod(len, w);
    let q = len / w;
    let r = len % w;
    vstd::arithmetic::div_mod::lemma_mod_bound(len, w);
    if g < q {
        vstd::arithmetic::mul::lemma_mul_inequality(g + 1, q, w);
        assert((g + 1) * w == g * w + w) by (nonlinear_arith);
        assert(q * w == w * q) by (nonlinear_arith);
    } else {
        vstd::arithmetic::mul::lemma_mul_inequality(q, g, w);
        assert(q * w == w * q) by (nonlinear_arith);
    }
}

/// The last row of a non-empty history of whole rows starts `w` entries from
/// the end.
proof fn lemma_last_row(len: int, w: int)
    requires
        w >= 1,
        len >= w,
        len % w == 0,
    ensures
        (len / w - 1) * w == len - w,
        (len / w - 1) * w + w == len,
{
    vstd::arithmetic::div_mod::lemma_fundamental_div_mod(len, w);
    assert((len / w - 1) * w == w * (len / w) - w) by (nonlinear_arith);
}

/// Appending one row of width `w` to `len` entries of whole rows adds exactly
/// one generation, starting where the old entries ended.
proof fn lemma_append_row(len: int, w: int)
    requires
        w >= 1,
        len >= 0,
        len % w == 0,
    ensures
        (len + w) % w == 0,
        (len + w) / w == len / w + 1,
        (len / w) * w == len,
{
    vstd::arithmetic::div_mod::lemma_fundamental_div_mod(len, w);
    assert((len / w) * w == w * (len / w)) by (nonlinear_arith);
    vstd::arithmetic::div_mod::lemma_mod_add_multiples_vanish(len, w);
    vstd::arithmetic::div_mod::lemma_div_plus_one(len, w);
}

/// A row before generation `k` ends at or before `k * w`.
proof fn lemma_row_inside(g: int, k: int, w: int)
    requires
        0 <= g < k,
        w >= 1,
    ensures
        0 <= g * w,
        g * w + w <= k * w,
{
    vstd::arithmetic::mul::lemma_mul_nonnegative(g, w);
    vstd::arithmetic::mul::lemma_mul_inequality(g + 1, k, w);
    assert((g + 1) * w == g * w + w) by (nonlinear_arith);
}

} // verus!
