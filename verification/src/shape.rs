//! What the fields of each strategy look like, whatever words they were
//! drawn from.

use vstd::prelude::*;
use crate::grid::{is_gap, lemma_index_in_range, lemma_smoothed_at, Field};
use crate::sample::{is_fresh, mean4, HALF};
use crate::strategy::Strategy;

verus! {

/// White noise of the given extent: every cell holds a fresh sample.
pub open spec fn is_static(f: Field, width: int, height: int) -> bool {
    &&& f.wf()
    &&& f.width == width
    &&& f.height == height
    &&& forall|x: int, y: int| f.contains(x, y) ==> is_fresh(#[trigger] f.at(x, y))
}

/// Key points of the given extent and padding: a cell holds a fresh sample
/// where its column and its row are both multiples of the padding, and zero
/// elsewhere.
pub open spec fn is_padded(f: Field, width: int, height: int, padding: int) -> bool {
    &&& f.wf()
    &&& f.width == width
    &&& f.height == height
    &&& forall|x: int, y: int|
        f.contains(x, y) ==> if x % padding == 0 && y % padding == 0 {
            is_fresh(#[trigger] f.at(x, y))
        } else {
            f.at(x, y) == 0
        }
}

/// A checkerboard of the given extent: every anchor holds a fresh sample
/// and every gap holds zero.
pub open spec fn is_lattice(f: Field, width: int, height: int) -> bool {
    &&& f.wf()
    &&& f.width == width
    &&& f.height == height
    &&& forall|x: int, y: int|
        f.contains(x, y) ==> if is_gap(x, y) {
            #[trigger] f.at(x, y) == 0
        } else {
            is_fresh(f.at(x, y))
        }
}

/// A relaxed checkerboard of the given extent: every anchor holds a fresh
/// sample, and every gap holds the mean of the reads at its four neighbours,
/// which is a whole number of units.
pub open spec fn is_smooth_lattice(f: Field, width: int, height: int) -> bool {
    &&& f.wf()
    &&& f.width == width
    &&& f.height == height
    &&& forall|x: int, y: int|
        f.contains(x, y) && !is_gap(x, y) ==> is_fresh(#[trigger] f.at(x, y))
    &&& forall|x: int, y: int|
        f.contains(x, y) ==> #[trigger] f.relaxed_at(x, y) == f.at(x, y)
    &&& forall|x: int, y: int|
        f.contains(x, y) && is_gap(x, y) ==> 4 * #[trigger] f.relaxed_at(x, y) == f.at(x - 1, y)
            + f.at(x + 1, y) + f.at(x, y - 1) + f.at(x, y + 1)
}

/// Every strategy makes a field of exactly the extent asked for, with one
/// sample per cell.
pub proof fn lemma_field_extent(strategy: Strategy, width: int, height: int, words: Seq<u64>)
    requires
        0 < width,
        0 < height,
    ensures
        strategy.field(width, height, words).wf(),
        strategy.field(width, height, words).width == width,
        strategy.field(width, height, words).height == height,
        strategy.field(width, height, words).cells.len() == width * height,
{
    lemma_index_in_range(width, height, 0, 0);
}

/// In a static field every cell holds the sample of a word.
pub proof fn lemma_static_cell(width: int, height: int, words: Seq<u64>, x: int, y: int)
    requires
        0 <= x < width,
        0 <= y < height,
    ensures
        is_fresh(Strategy::Static.field(width, height, words).at(x, y)),
{
    Strategy::Static.lemma_sampled_at(width, height, words, x, y);
}

/// In a padded field a cell is zero unless its column and its row are both
/// multiples of the padding, and holds a fresh sample if they are.
pub proof fn lemma_padded_cell(
    width: int,
    height: int,
    padding: i32,
    words: Seq<u64>,
    x: int,
    y: int,
)
    requires
        0 <= x < width,
        0 <= y < height,
    ensures
        !(x % (padding as int) == 0 && y % (padding as int) == 0) ==> Strategy::Padded(
            padding,
        ).field(width, height, words).at(x, y) == 0,
        x % (padding as int) == 0 && y % (padding as int) == 0 ==> is_fresh(
            Strategy::Padded(padding).field(width, height, words).at(x, y),
        ),
{
    Strategy::Padded(padding).lemma_sampled_at(width, height, words, x, y);
}

/// In a lattice field every gap is zero and every anchor holds a sample in
/// `[0, 1)`.
pub proof fn lemma_lattice_cell(width: int, height: int, words: Seq<u64>, x: int, y: int)
    requires
        0 <= x < width,
        0 <= y < height,
    ensures
        is_gap(x, y) ==> Strategy::Lattice.field(width, height, words).at(x, y) == 0,
        !is_gap(x, y) ==> is_fresh(Strategy::Lattice.field(width, height, words).at(x, y)),
{
    Strategy::Lattice.lemma_sampled_at(width, height, words, x, y);
}

/// What a read of the lattice field yields, inside the field or not, is a
/// multiple of four units, and a read at an anchor is the same before and
/// after the relaxation.
proof fn lemma_lattice_read(width: int, height: int, words: Seq<u64>, x: int, y: int)
    requires
        0 < width,
        0 < height,
    ensures
        Strategy::Lattice.field(width, height, words).at(x, y) % 4 == 0,
        !is_gap(x, y) ==> Strategy::SmoothLattice.field(width, height, words).at(x, y)
            == Strategy::Lattice.field(width, height, words).at(x, y),
{
    let lattice = Strategy::Lattice.field(width, height, words);
    Strategy::lemma_smooth_lattice_sampled(width, height, words);
    lemma_field_extent(Strategy::Lattice, width, height, words);
    if lattice.contains(x, y) {
        lemma_lattice_cell(width, height, words, x, y);
        lemma_smoothed_at(lattice, x, y);
    }
}

/// In a smooth lattice field every gap holds the mean of its four
/// neighbours in the lattice field of the same words, where a neighbour
/// outside the field counts as [`HALF`]; the mean is exact, nothing is
/// rounded away. Every anchor holds what it held in the lattice field.
pub proof fn lemma_smooth_lattice_cell(width: int, height: int, words: Seq<u64>, x: int, y: int)
    requires
        0 <= x < width,
        0 <= y < height,
    ensures
        Strategy::SmoothLattice.field(width, height, words) == Strategy::Lattice.field(
            width,
            height,
            words,
        ).smoothed(),
        is_gap(x, y) ==> 4 * Strategy::SmoothLattice.field(width, height, words).at(x, y)
            == Strategy::Lattice.field(width, height, words).at(x - 1, y)
            + Strategy::Lattice.field(width, height, words).at(x + 1, y)
            + Strategy::Lattice.field(width, height, words).at(x, y - 1)
            + Strategy::Lattice.field(width, height, words).at(x, y + 1),
        !is_gap(x, y) ==> Strategy::SmoothLattice.field(width, height, words).at(x, y)
            == Strategy::Lattice.field(width, height, words).at(x, y),
        !is_gap(x, y) ==> is_fresh(Strategy::SmoothLattice.field(width, height, words).at(x, y)),
{
    let lattice = Strategy::Lattice.field(width, height, words);
    Strategy::lemma_smooth_lattice_sampled(width, height, words);
    lemma_field_extent(Strategy::Lattice, width, height, words);
    lemma_smoothed_at(lattice, x, y);
    lemma_lattice_cell(width, height, words, x, y);
    lemma_lattice_read(width, height, words, x - 1, y);
    lemma_lattice_read(width, height, words, x + 1, y);
    lemma_lattice_read(width, height, words, x, y - 1);
    lemma_lattice_read(width, height, words, x, y + 1);
}

/// A gap on the edge of a field takes [`HALF`] for each neighbour that the
/// field does not have, and the stored sample for each one that it has.
pub proof fn lemma_edge_gap(f: Field, x: int, y: int)
    requires
        f.wf(),
        f.contains(x, y),
        is_gap(x, y),
    ensures
        f.smoothed().at(x, y) == mean4(
            if x == 0 {
                HALF
            } else {
                f.cells[f.index_of(x - 1, y)]
            },
            if x == f.width - 1 {
                HALF
            } else {
                f.cells[f.index_of(x + 1, y)]
            },
            if y == 0 {
                HALF
            } else {
                f.cells[f.index_of(x, y - 1)]
            },
            if y == f.height - 1 {
                HALF
            } else {
                f.cells[f.index_of(x, y + 1)]
            },
        ),
{
    lemma_smoothed_at(f, x, y);
}

/// The static field of any words is white noise.
pub proof fn lemma_static_shape(width: int, height: int, words: Seq<u64>)
    requires
        0 < width,
        0 < height,
    ensures
        is_static(Strategy::Static.field(width, height, words), width, height),
{
    let f = Strategy::Static.field(width, height, words);
    lemma_field_extent(Strategy::Static, width, height, words);
    assert forall|x: int, y: int| f.contains(x, y) implies is_fresh(#[trigger] f.at(x, y)) by {
        lemma_static_cell(width, height, words, x, y);
    }
}

/// The padded field of any words is made of key points.
pub proof fn lemma_padded_shape(width: int, height: int, padding: i32, words: Seq<u64>)
    requires
        0 < width,
        0 < height,
    ensures
        is_padded(
            Strategy::Padded(padding).field(width, height, words),
            width,
            height,
            padding as int,
        ),
{
    let f = Strategy::Padded(padding).field(width, height, words);
    lemma_field_extent(Strategy::Padded(padding), width, height, words);
    assert forall|x: int, y: int| f.contains(x, y) implies if x % (padding as int) == 0 && y % (
    padding as int) == 0 {
        is_fresh(#[trigger] f.at(x, y))
    } else {
        f.at(x, y) == 0
    } by {
        lemma_padded_cell(width, height, padding, words, x, y);
    }
}

/// The lattice field of any words is a checkerboard.
pub proof fn lemma_lattice_shape(width: int, height: int, words: Seq<u64>)
    requires
        0 < width,
        0 < height,
    ensures
        is_lattice(Strategy::Lattice.field(width, height, words), width, height),
{
    let f = Strategy::Lattice.field(width, height, words);
    lemma_field_extent(Strategy::Lattice, width, height, words);
    assert forall|x: int, y: int| f.contains(x, y) implies if is_gap(x, y) {
        #[trigger] f.at(x, y) == 0
    } else {
        is_fresh(f.at(x, y))
    } by {
        lemma_lattice_cell(width, height, words, x, y);
    }
}

/// The smooth lattice field of any words is a relaxed checkerboard.
pub proof fn lemma_smooth_lattice_shape(width: int, height: int, words: Seq<u64>)
    requires
        0 < width,
        0 < height,
    ensures
        is_smooth_lattice(Strategy::SmoothLattice.field(width, height, words), width, height),
{
    let f = Strategy::SmoothLattice.field(width, height, words);
    lemma_field_extent(Strategy::SmoothLattice, width, height, words);
    assert forall|x: int, y: int| f.contains(x, y) && !is_gap(x, y) implies is_fresh(
        #[trigger] f.at(x, y),
    ) by {
        lemma_smooth_lattice_cell(width, height, words, x, y);
    }
    assert forall|x: int, y: int| f.contains(x, y) implies #[trigger] f.relaxed_at(x, y) == f.at(
        x,
        y,
    ) && (is_gap(x, y) ==> 4 * f.relaxed_at(x, y) == f.at(x - 1, y) + f.at(x + 1, y) + f.at(
        x,
        y - 1,
    ) + f.at(x, y + 1)) by {
        lemma_smooth_lattice_cell(width, height, words, x, y);
        if is_gap(x, y) {
            lemma_lattice_read(width, height, words, x - 1, y);
            lemma_lattice_read(width, height, words, x + 1, y);
            lemma_lattice_read(width, height, words, x, y - 1);
            lemma_lattice_read(width, height, words, x, y + 1);
        }
    }
}

} // verus!
