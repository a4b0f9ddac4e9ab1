//! The field of samples and its cell-wise access.

use vstd::prelude::*;
use vstd::arithmetic::div_mod::{lemma_fundamental_div_mod, lemma_fundamental_div_mod_converse};
use crate::sample::{HALF, mean4, mean_of_four};

verus! {

/// Whether a field of this width and height can exist: both are positive and
/// the cells can be counted in a `usize`.
pub open spec fn dimensions_ok(width: int, height: int) -> bool {
    0 < width && 0 < height && width * height <= usize::MAX
}

/// Whether the cell `(x, y)` is a gap of the checkerboard: a cell whose
/// coordinates add up to an odd number. The other cells are the anchors.
pub open spec fn is_gap(x: int, y: int) -> bool {
    (x + y) % 2 != 0
}

/// The mathematical value of a field: its extent and its samples, stored
/// column after column, so that cell `(x, y)` is entry `x * height + y`.
pub struct Field {
    pub width: int,
    pub height: int,
    pub cells: Seq<u64>,
}

impl Field {
    /// Both extents are positive and there is one sample per cell.
    pub open spec fn wf(self) -> bool {
        &&& 0 < self.width
        &&& 0 < self.height
        &&& self.cells.len() == self.width * self.height
    }

    /// Whether `(x, y)` names a cell of the field.
    pub open spec fn contains(self, x: int, y: int) -> bool {
        0 <= x < self.width && 0 <= y < self.height
    }

    /// Where the sample of cell `(x, y)` is stored.
    pub open spec fn index_of(self, x: int, y: int) -> int {
        x * self.height + y
    }

    /// What a read at `(x, y)` yields: the stored sample inside the field,
    /// [`HALF`] everywhere else.
    pub open spec fn at(self, x: int, y: int) -> u64 {
        if self.contains(x, y) {
            self.cells[self.index_of(x, y)]
        } else {
            HALF
        }
    }

    /// The field with `value` stored in cell `(x, y)`.
    pub open spec fn put(self, x: int, y: int, value: u64) -> Field {
        Field {
            width: self.width,
            height: self.height,
            cells: self.cells.update(self.index_of(x, y), value),
        }
    }

    /// What one relaxation pass leaves in cell `(x, y)`: in a gap the mean of
    /// the reads at its four neighbours, in an anchor the sample it had.
    pub open spec fn relaxed_at(self, x: int, y: int) -> u64 {
        if is_gap(x, y) {
            mean4(self.at(x - 1, y), self.at(x + 1, y), self.at(x, y - 1), self.at(x, y + 1))
        } else {
            self.at(x, y)
        }
    }

    /// The field after one relaxation pass over all its cells.
    pub open spec fn smoothed(self) -> Field {
        Field {
            width: self.width,
            height: self.height,
            cells: Seq::new(
                self.cells.len(),
                |i: int| self.relaxed_at(i / self.height, i % self.height),
            ),
        }
    }
}

/// A cell inside a `width` by `height` field is stored inside its samples.
pub proof fn lemma_index_in_range(width: int, height: int, x: int, y: int)
    requires
        0 <= x < width,
        0 <= y < height,
    ensures
        0 <= x * height + y < width * height,
{
    assert(x * height >= 0 && x * height + height <= width * height) by (nonlinear_arith)
        requires
            0 <= x < width,
            0 < height,
    ;
}

/// The place `x * height + y` gives back its column `x` and its row `y`.
pub proof fn lemma_index_split(height: int, x: int, y: int)
    requires
        0 <= y < height,
    ensures
        (x * height + y) / height == x,
        (x * height + y) % height == y,
{
    lemma_fundamental_div_mod_converse(x * height + y, height, x, y);
}

/// Every place below `width * height` belongs to exactly one cell.
pub proof fn lemma_index_join(width: int, height: int, i: int)
    requires
        0 < height,
        0 <= i < width * height,
    ensures
        0 <= i / height < width,
        0 <= i % height < height,
        (i / height) * height + i % height == i,
{
    lemma_fundamental_div_mod(i, height);
    let q = i / height;
    assert(0 <= q < width) by (nonlinear_arith)
        requires
            0 < height,
            0 <= i < width * height,
            i == height * q + i % height,
            0 <= i % height < height,
    ;
    assert(q * height == height * q) by (nonlinear_arith);
}

/// Reads and writes agree on where a cell is stored: after a write to
/// `(x, y)` a read there yields the new sample, and a read anywhere else
/// yields what it did before.
pub proof fn lemma_put_at(f: Field, x: int, y: int, value: u64, a: int, b: int)
    requires
        f.wf(),
        f.contains(x, y),
    ensures
        f.put(x, y, value).wf(),
        f.put(x, y, value).at(a, b) == (if a == x && b == y {
            value
        } else {
            f.at(a, b)
        }),
{
    lemma_index_in_range(f.width, f.height, x, y);
    if f.contains(a, b) {
        lemma_index_in_range(f.width, f.height, a, b);
        lemma_index_split(f.height, x, y);
        lemma_index_split(f.height, a, b);
    }
}

/// One relaxation pass keeps the extent, fills every gap with the mean of
/// the reads at its four neighbours as they were before the pass, where a
/// neighbour outside the field counts as [`HALF`], and leaves every anchor
/// as it was.
pub proof fn lemma_smoothed_at(f: Field, x: int, y: int)
    requires
        f.wf(),
        f.contains(x, y),
    ensures
        f.smoothed().wf(),
        f.smoothed().contains(x, y),
        f.smoothed().at(x, y) == f.relaxed_at(x, y),
        is_gap(x, y) ==> f.smoothed().at(x, y) == mean4(
            f.at(x - 1, y),
            f.at(x + 1, y),
            f.at(x, y - 1),
            f.at(x, y + 1),
        ),
        !is_gap(x, y) ==> f.smoothed().at(x, y) == f.at(x, y),
{
    lemma_index_in_range(f.width, f.height, x, y);
    lemma_index_split(f.height, x, y);
}

/// A read next to a gap is the same before and after a relaxation pass:
/// the neighbours of a gap are anchors, or lie outside the field.
pub proof fn lemma_smoothed_beside_gap(f: Field, x: int, y: int)
    requires
        f.wf(),
        is_gap(x, y),
    ensures
        f.smoothed().at(x - 1, y) == f.at(x - 1, y),
        f.smoothed().at(x + 1, y) == f.at(x + 1, y),
        f.smoothed().at(x, y - 1) == f.at(x, y - 1),
        f.smoothed().at(x, y + 1) == f.at(x, y + 1),
{
    lemma_index_in_range(f.width, f.height, 0, 0);
    if f.contains(x - 1, y) {
        lemma_smoothed_at(f, x - 1, y);
    }
    if f.contains(x + 1, y) {
        lemma_smoothed_at(f, x + 1, y);
    }
    if f.contains(x, y - 1) {
        lemma_smoothed_at(f, x, y - 1);
    }
    if f.contains(x, y + 1) {
        lemma_smoothed_at(f, x, y + 1);
    }
}

/// One relaxation pass is all it takes: a second pass changes nothing,
/// because no gap reads another gap.
pub proof fn lemma_smoothed_twice(f: Field)
    requires
        f.wf(),
    ensures
        f.smoothed().smoothed() == f.smoothed(),
{
    let once = f.smoothed();
    let twice = once.smoothed();
    lemma_index_in_range(f.width, f.height, 0, 0);
    assert forall|i: int| 0 <= i < once.cells.len() implies twice.cells[i] == once.cells[i] by {
        lemma_index_join(f.width, f.height, i);
        let x = i / f.height;
        let y = i % f.height;
        lemma_smoothed_at(f, x, y);
        if is_gap(x, y) {
            lemma_smoothed_beside_gap(f, x, y);
        }
    }
    assert(twice.cells =~= once.cells);
}

/// A rectangular field of samples.
#[derive(Debug, PartialEq, Eq)]
pub struct Noise {
    values: Vec<u64>,
    width: i32,
    height: i32,
}

impl View for Noise {
    type V = Field;

    closed spec fn view(&self) -> Field {
        Field { width: self.width as int, height: self.height as int, cells: self.values@ }
    }
}

impl Clone for Noise {
    /// Copies the field, sample for sample.
    fn clone(&self) -> (copy: Noise)
        ensures
            copy@ == self@,
    {
        proof {
            use_type_invariant(self);
        }
        let values: Vec<u64> = self.values.clone();
        assert(values@ =~= self.values@);
        Noise { values, width: self.width, height: self.height }
    }
}

impl Noise {
    /// Every field has positive extents and one sample per cell.
    #[verifier::type_invariant]
    pub closed spec fn inv(&self) -> bool {
        self@.wf()
    }

    /// Makes the field of the given extent from its samples, stored column
    /// after column. There is none unless the extent is valid and `values`
    /// holds exactly one sample per cell.
    pub fn from_values(width: i32, height: i32, values: Vec<u64>) -> (made: Option<Noise>)
        ensures
            made is Some <==> dimensions_ok(width as int, height as int) && values.len() == width
                * height,
            made is Some ==> made->0@ == (Field {
                width: width as int,
                height: height as int,
                cells: values@,
            }),
    {
        if width <= 0 || height <= 0 {
            return None;
        }
        assert(width * height <= 0x7fff_ffff * 0x7fff_ffff) by (nonlinear_arith)
            requires
                0 < width <= 0x7fff_ffff,
                0 < height <= 0x7fff_ffff,
        ;
        let cells: u64 = (width as u64) * (height as u64);
        if values.len() as u64 != cells {
            return None;
        }
        Some(Noise { values, width, height })
    }

    /// The number of columns.
    pub fn width(&self) -> (width: i32)
        ensures
            width == self@.width,
            self@.wf(),
    {
        proof {
            use_type_invariant(self);
        }
        self.width
    }

    /// The number of rows.
    pub fn height(&self) -> (height: i32)
        ensures
            height == self@.height,
            self@.wf(),
    {
        proof {
            use_type_invariant(self);
        }
        self.height
    }

    /// The samples, column after column.
    pub fn values(&self) -> (values: &Vec<u64>)
        ensures
            values@ == self@.cells,
            self@.wf(),
    {
        proof {
            use_type_invariant(self);
        }
        &self.values
    }

    /// Reads the sample of cell `(x, y)`. A read outside the field is no
    /// error: it yields [`HALF`].
    pub fn get(&self, x: i32, y: i32) -> (value: u64)
        ensures
            value == self@.at(x as int, y as int),
            !self@.contains(x as int, y as int) ==> value == HALF,
    {
        proof {
            use_type_invariant(self);
        }
        if x < 0 || y < 0 || self.width <= x || self.height <= y {
            HALF
        } else {
            proof {
                lemma_index_in_range(self.width as int, self.height as int, x as int, y as int);
            }
            let column: usize = x as usize;
            let rows: usize = self.height as usize;
            assert(column * rows + y < self.values.len());
            self.values[column * rows + y as usize]
        }
    }

    /// Stores `value` in cell `(x, y)`, which must lie inside the field.
    /// Nothing is checked when the program runs: a caller that cannot show
    /// that the cell exists uses [`Noise::try_set`].
    pub fn set(&mut self, x: i32, y: i32, value: u64)
        requires
            old(self)@.contains(x as int, y as int),
        ensures
            final(self)@ == old(self)@.put(x as int, y as int, value),
            final(self)@.wf(),
    {
        proof {
            use_type_invariant(&*self);
            lemma_index_in_range(self.width as int, self.height as int, x as int, y as int);
        }
        let column: usize = x as usize;
        let rows: usize = self.height as usize;
        assert(column * rows + y < self.values.len());
        self.values[column * rows + y as usize] = value;
    }

    /// Stores `value` in cell `(x, y)` if the field has such a cell, and
    /// tells whether it has. A write outside the field changes nothing.
    pub fn try_set(&mut self, x: i32, y: i32, value: u64) -> (stored: bool)
        ensures
            stored == old(self)@.contains(x as int, y as int),
            stored ==> final(self)@ == old(self)@.put(x as int, y as int, value),
            !stored ==> final(self)@ == old(self)@,
            final(self)@.wf(),
    {
        proof {
            use_type_invariant(&*self);
        }
        if x < 0 || y < 0 || self.width <= x || self.height <= y {
            false
        } else {
            self.set(x, y, value);
            true
        }
    }

    /// Runs one relaxation pass: every gap takes the mean of the reads at its
    /// four neighbours, and every anchor stays as it is. The neighbours of a
    /// gap are anchors or lie outside the field, so no gap reads what the
    /// pass has written, and the order of the cells does not matter.
    pub fn smooth(&mut self)
        ensures
            final(self)@ == old(self)@.smoothed(),
            final(self)@.wf(),
    {
        proof {
            use_type_invariant(&*self);
        }
        let ghost before = self@;
        let mut x: i32 = 0;
        while x < self.width
            invariant
                before.wf(),
                self@.wf(),
                self@.width == before.width,
                self@.height == before.height,
                0 <= x <= before.width,
                forall|a: int, b: int|
                    before.contains(a, b) ==> #[trigger] self@.at(a, b) == (if a < x {
                        before.relaxed_at(a, b)
                    } else {
                        before.at(a, b)
                    }),
            decreases self.width - x,
        {
            let mut y: i32 = 0;
            while y < self.height
                invariant
                    before.wf(),
                    self@.wf(),
                    self@.width == before.width,
                    self@.height == before.height,
                    0 <= x < before.width,
                    0 <= y <= before.height,
                    forall|a: int, b: int|
                        before.contains(a, b) ==> #[trigger] self@.at(a, b) == (if a < x || (a
                            == x && b < y) {
                            before.relaxed_at(a, b)
                        } else {
                            before.at(a, b)
                        }),
                decreases self.height - y,
            {
                if (x as i64 + y as i64) % 2 != 0 {
                    let left: u64 = self.get(x - 1, y);
                    let right: u64 = self.get(x + 1, y);
                    let up: u64 = self.get(x, y - 1);
                    let down: u64 = self.get(x, y + 1);
                    let mean: u64 = mean_of_four(left, right, up, down);
                    let ghost current = self@;
                    self.set(x, y, mean);
                    proof {
                        assert(mean == before.relaxed_at(x as int, y as int));
                        assert forall|a: int, b: int| before.contains(a, b) implies #[trigger] self@.at(
                            a,
                            b,
                        ) == (if a < x || (a == x && b < y + 1) {
                            before.relaxed_at(a, b)
                        } else {
                            before.at(a, b)
                        }) by {
                            lemma_put_at(current, x as int, y as int, mean, a, b);
                        }
                    }
                }
                y += 1;
            }
            x += 1;
        }
        proof {
            assert forall|i: int| 0 <= i < before.cells.len() implies self@.cells[i]
                == before.smoothed().cells[i] by {
                lemma_index_join(before.width, before.height, i);
                assert(self@.at(i / before.height, i % before.height) == before.relaxed_at(
                    i / before.height,
                    i % before.height,
                ));
            }
            assert(self@.cells =~= before.smoothed().cells);
        }
    }
}

} // verus!
