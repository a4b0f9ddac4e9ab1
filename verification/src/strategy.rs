//! The four ways to fill a field, and what each of them makes of a sequence
//! of random words.

use vstd::prelude::*;
use vstd::arithmetic::div_mod::{lemma_fundamental_div_mod, lemma_fundamental_div_mod_converse};
use crate::error::NoiseError;
use crate::grid::{dimensions_ok, is_gap, lemma_index_in_range, lemma_index_split, Field};
use crate::sample::sample_of;

verus! {

/// How a field is filled.
///
/// The cells are visited column after column, each column from its first
/// row to its last. A cell that takes a draw uses up the next random word.
#[derive(Clone, Copy, Debug, PartialEq, Eq)]
pub enum Strategy {
    /// White noise: every cell takes a draw.
    Static,
    /// Key points: a cell takes a draw where its column and its row are both
    /// multiples of the padding, and is zero elsewhere.
    Padded(i32),
    /// A checkerboard: every anchor takes a draw and every gap is zero.
    Lattice,
    /// The checkerboard after one relaxation pass over its gaps.
    SmoothLattice,
}

/// How many of the numbers `0, 1, .., n - 1` are multiples of `step`: `n`
/// divided by `step`, rounded up.
pub open spec fn steps(n: int, step: int) -> int {
    (n + step - 1) / step
}

/// There is nothing to count below zero.
pub proof fn lemma_steps_none(step: int)
    requires
        0 < step,
    ensures
        steps(0, step) == 0,
{
    lemma_fundamental_div_mod_converse(step - 1, step, 0, step - 1);
}

/// Counting one number further adds one if that number is a multiple of
/// `step`, and nothing if it is not.
pub proof fn lemma_steps_next(n: int, step: int)
    requires
        0 <= n,
        0 < step,
    ensures
        steps(n + 1, step) == steps(n, step) + (if n % step == 0 {
            1int
        } else {
            0int
        }),
{
    let q = n / step;
    let r = n % step;
    lemma_fundamental_div_mod(n, step);
    assert(step * q == q * step) by (nonlinear_arith);
    assert((q + 1) * step == q * step + step) by (nonlinear_arith);
    lemma_fundamental_div_mod_converse(n + step, step, q + 1, r);
    if r == 0 {
        lemma_fundamental_div_mod_converse(n + step - 1, step, q, step - 1);
    } else {
        lemma_fundamental_div_mod_converse(n + step - 1, step, q + 1, r - 1);
    }
}

impl Strategy {
    /// A padded field needs a positive padding. The other strategies have no
    /// parameter to get wrong.
    pub open spec fn valid(self) -> bool {
        match self {
            Strategy::Padded(padding) => padding > 0,
            _ => true,
        }
    }

    /// Whether cell `(x, y)` takes a draw.
    pub open spec fn draws_at(self, x: int, y: int) -> bool {
        match self {
            Strategy::Static => true,
            Strategy::Padded(padding) => x % (padding as int) == 0 && y % (padding as int) == 0,
            Strategy::Lattice => !is_gap(x, y),
            Strategy::SmoothLattice => !is_gap(x, y),
        }
    }

    /// How many of the first `n` cells take a draw, in a field with `height`
    /// rows.
    pub open spec fn draws_before(self, height: int, n: nat) -> nat
        decreases n,
    {
        if n == 0 {
            0
        } else {
            let last = n - 1;
            self.draws_before(height, last as nat) + (if self.draws_at(
                last / height,
                last % height,
            ) {
                1nat
            } else {
                0nat
            })
        }
    }

    /// How many random words a field of the given extent uses up.
    pub open spec fn draws_needed(self, width: int, height: int) -> nat {
        self.draws_before(height, (width * height) as nat)
    }

    /// The field as the draws leave it, before any relaxation: the k-th cell
    /// that takes a draw holds the sample of the k-th word, and every other
    /// cell holds zero.
    pub open spec fn sampled(self, width: int, height: int, words: Seq<u64>) -> Field {
        Field {
            width,
            height,
            cells: Seq::new(
                (width * height) as nat,
                |i: int|
                    if self.draws_at(i / height, i % height) {
                        sample_of(words[self.draws_before(height, i as nat) as int])
                    } else {
                        0u64
                    },
            ),
        }
    }

    /// The field that the strategy makes of `words`.
    pub open spec fn field(self, width: int, height: int, words: Seq<u64>) -> Field {
        match self {
            Strategy::SmoothLattice => self.sampled(width, height, words).smoothed(),
            _ => self.sampled(width, height, words),
        }
    }

    /// Why no field of this extent is made, whatever the words: the extent
    /// is checked first, then the padding.
    pub open spec fn rejection(self, width: int, height: int) -> Option<NoiseError> {
        if !dimensions_ok(width, height) {
            Some(NoiseError::InvalidDimensions)
        } else if !self.valid() {
            Some(NoiseError::InvalidPadding)
        } else {
            None
        }
    }

    /// What becomes of a request to fill a field from `words`.
    pub open spec fn outcome(self, width: int, height: int, words: Seq<u64>) -> Result<
        Field,
        NoiseError,
    > {
        match self.rejection(width, height) {
            Some(error) => Err(error),
            None => if words.len() < self.draws_needed(width, height) {
                Err(NoiseError::NotEnoughWords)
            } else {
                Ok(self.field(width, height, words))
            },
        }
    }

    /// The number of draws never falls from one cell to the next, and no
    /// cell takes more than one.
    pub proof fn lemma_draws_grow(self, height: int, m: nat, n: nat)
        requires
            m <= n,
        ensures
            self.draws_before(height, m) <= self.draws_before(height, n),
            self.draws_before(height, n) <= self.draws_before(height, m) + (n - m),
        decreases n,
    {
        if m < n {
            self.lemma_draws_grow(height, m, (n - 1) as nat);
        }
    }

    /// No field uses up more words than it has cells, so a word for every
    /// cell is always enough.
    pub proof fn lemma_draws_at_most_cells(self, width: int, height: int)
        requires
            0 <= width * height,
        ensures
            self.draws_needed(width, height) <= width * height,
    {
        self.lemma_draws_grow(height, 0, (width * height) as nat);
    }

    /// White noise uses up one word for every cell.
    pub proof fn lemma_static_draws(height: int, n: nat)
        ensures
            Strategy::Static.draws_before(height, n) == n,
        decreases n,
    {
        if n > 0 {
            Self::lemma_static_draws(height, (n - 1) as nat);
        }
    }

    /// In column `x` of a lattice the first `y` rows hold every other cell
    /// as an anchor, starting with an anchor where `x` is even.
    proof fn lemma_lattice_column(height: int, x: int, y: int)
        requires
            0 <= x,
            0 <= y <= height,
        ensures
            0 <= x * height,
            Strategy::Lattice.draws_before(height, (x * height + y) as nat)
                == Strategy::Lattice.draws_before(height, (x * height) as nat) + (if x % 2 == 0 {
                (y + 1) / 2
            } else {
                y / 2
            }),
        decreases y,
    {
        assert(0 <= x * height) by (nonlinear_arith)
            requires
                0 <= x,
                0 <= height,
        ;
        if y > 0 {
            Self::lemma_lattice_column(height, x, y - 1);
            lemma_index_split(height, x, y - 1);
        }
    }

    /// A lattice uses up a word for every other cell, and one more where the
    /// number of cells is odd.
    pub proof fn lemma_lattice_draws(width: int, height: int)
        requires
            0 <= width,
            0 <= height,
        ensures
            Strategy::Lattice.draws_needed(width, height) == (width * height + 1) / 2,
            Strategy::SmoothLattice.draws_needed(width, height) == (width * height + 1) / 2,
        decreases width,
    {
        if width > 0 {
            let before = (width - 1) * height;
            Self::lemma_lattice_draws(width - 1, height);
            Self::lemma_lattice_column(height, width - 1, height);
            assert(width * height == before + height) by (nonlinear_arith)
                requires
                    before == (width - 1) * height,
            ;
            let half = (width - 1) / 2;
            if (width - 1) % 2 == 0 {
                assert(before == 2 * (half * height)) by (nonlinear_arith)
                    requires
                        before == (width - 1) * height,
                        width - 1 == 2 * half,
                ;
            } else {
                assert(before == 2 * (half * height) + height) by (nonlinear_arith)
                    requires
                        before == (width - 1) * height,
                        width - 1 == 2 * half + 1,
                ;
            }
        } else {
            assert(width * height == 0) by (nonlinear_arith)
                requires
                    width == 0,
            ;
        }
        Self::lemma_smooth_lattice_draws(height, (width * height) as nat);
    }

    /// In column `x` of a padded field the first `y` rows hold a key point
    /// in every `padding`-th row, starting with the first, if the column is
    /// itself a multiple of the padding, and none if it is not.
    proof fn lemma_padded_column(padding: i32, height: int, x: int, y: int)
        requires
            0 < padding,
            0 <= x,
            0 <= y <= height,
        ensures
            0 <= x * height,
            Strategy::Padded(padding).draws_before(height, (x * height + y) as nat)
                == Strategy::Padded(padding).draws_before(height, (x * height) as nat) + (if x % (
            padding as int) == 0 {
                steps(y, padding as int)
            } else {
                0
            }),
        decreases y,
    {
        assert(0 <= x * height) by (nonlinear_arith)
            requires
                0 <= x,
                0 <= height,
        ;
        if y > 0 {
            Self::lemma_padded_column(padding, height, x, y - 1);
            lemma_index_split(height, x, y - 1);
            lemma_steps_next(y - 1, padding as int);
        } else {
            lemma_steps_none(padding as int);
        }
    }

    /// A padded field uses up a word for every key point: one in every
    /// `padding`-th row of every `padding`-th column.
    pub proof fn lemma_padded_draws(padding: i32, width: int, height: int)
        requires
            0 < padding,
            0 <= width,
            0 <= height,
        ensures
            Strategy::Padded(padding).draws_needed(width, height) == steps(width, padding as int)
                * steps(height, padding as int),
        decreases width,
    {
        let across = steps(width, padding as int);
        let down = steps(height, padding as int);
        if width > 0 {
            let before = (width - 1) * height;
            Self::lemma_padded_draws(padding, width - 1, height);
            Self::lemma_padded_column(padding, height, width - 1, height);
            lemma_steps_next(width - 1, padding as int);
            assert(width * height == before + height) by (nonlinear_arith)
                requires
                    before == (width - 1) * height,
            ;
            assert((across - 1) * down + down == across * down) by (nonlinear_arith);
        } else {
            assert(width * height == 0) by (nonlinear_arith)
                requires
                    width == 0,
            ;
            lemma_steps_none(padding as int);
            assert(across * down == 0) by (nonlinear_arith)
                requires
                    across == 0,
            ;
        }
    }

    /// How many random words a field of the given extent uses up, without
    /// counting cell by cell.
    pub open spec fn draws_in_all(self, width: int, height: int) -> int {
        match self {
            Strategy::Static => width * height,
            Strategy::Padded(padding) => steps(width, padding as int) * steps(
                height,
                padding as int,
            ),
            Strategy::Lattice => (width * height + 1) / 2,
            Strategy::SmoothLattice => (width * height + 1) / 2,
        }
    }

    /// Counting the draws cell by cell gives what the strategy uses up in
    /// all: every cell of white noise, every key point of a padded field,
    /// every anchor of a lattice.
    pub proof fn lemma_draws_needed(self, width: int, height: int)
        requires
            self.valid(),
            0 <= width,
            0 <= height,
        ensures
            self.draws_needed(width, height) == self.draws_in_all(width, height),
    {
        match self {
            Strategy::Static => {
                assert(0 <= width * height) by (nonlinear_arith)
                    requires
                        0 <= width,
                        0 <= height,
                ;
                Self::lemma_static_draws(height, (width * height) as nat);
            },
            Strategy::Padded(padding) => {
                Self::lemma_padded_draws(padding, width, height);
            },
            Strategy::Lattice => {
                Self::lemma_lattice_draws(width, height);
            },
            Strategy::SmoothLattice => {
                Self::lemma_lattice_draws(width, height);
            },
        }
    }

    /// The smooth lattice draws exactly where the lattice draws.
    pub proof fn lemma_smooth_lattice_draws(height: int, n: nat)
        ensures
            Strategy::SmoothLattice.draws_before(height, n) == Strategy::Lattice.draws_before(
                height,
                n,
            ),
        decreases n,
    {
        if n > 0 {
            Self::lemma_smooth_lattice_draws(height, (n - 1) as nat);
        }
    }

    /// Before the relaxation the smooth lattice and the lattice make the
    /// same field of the same words.
    pub proof fn lemma_smooth_lattice_sampled(width: int, height: int, words: Seq<u64>)
        ensures
            Strategy::SmoothLattice.sampled(width, height, words) == Strategy::Lattice.sampled(
                width,
                height,
                words,
            ),
    {
        let smooth = Strategy::SmoothLattice.sampled(width, height, words);
        let lattice = Strategy::Lattice.sampled(width, height, words);
        assert forall|i: int| 0 <= i < smooth.cells.len() implies smooth.cells[i]
            == lattice.cells[i] by {
            Self::lemma_smooth_lattice_draws(height, i as nat);
        }
        assert(smooth.cells =~= lattice.cells);
    }

    /// What a cell of the field holds before any relaxation: the sample of
    /// its own word where it takes a draw, zero elsewhere.
    pub proof fn lemma_sampled_at(self, width: int, height: int, words: Seq<u64>, x: int, y: int)
        requires
            0 <= x < width,
            0 <= y < height,
        ensures
            self.sampled(width, height, words).wf(),
            self.sampled(width, height, words).contains(x, y),
            self.sampled(width, height, words).at(x, y) == (if self.draws_at(x, y) {
                sample_of(words[self.draws_before(height, (x * height + y) as nat) as int])
            } else {
                0u64
            }),
    {
        lemma_index_in_range(width, height, x, y);
        lemma_index_split(height, x, y);
    }
}

} // verus!
