//! Filling a field, from recorded words or from the thread's generator.

use vstd::prelude::*;
use crate::error::NoiseError;
use crate::grid::{dimensions_ok, lemma_index_in_range, lemma_index_split, Field, Noise};
use crate::random::draw_words;
use crate::sample::sample_from_word;
use crate::shape::{
    is_lattice, is_padded, is_smooth_lattice, is_static, lemma_field_extent, lemma_lattice_shape,
    lemma_padded_shape, lemma_smooth_lattice_shape, lemma_static_shape,
};
use crate::strategy::Strategy;

verus! {

/// Tells why no field of this extent can be made, if so.
fn rejected(strategy: Strategy, width: i32, height: i32) -> (error: Option<NoiseError>)
    ensures
        error == strategy.rejection(width as int, height as int),
{
    if width <= 0 || height <= 0 {
        return Some(NoiseError::InvalidDimensions);
    }
    assert(width * height <= 0x7fff_ffff * 0x7fff_ffff) by (nonlinear_arith)
        requires
            0 < width <= 0x7fff_ffff,
            0 < height <= 0x7fff_ffff,
    ;
    let cells: u64 = (width as u64) * (height as u64);
    if cells > usize::MAX as u64 {
        return Some(NoiseError::InvalidDimensions);
    }
    match strategy {
        Strategy::Padded(padding) => if padding <= 0 {
            Some(NoiseError::InvalidPadding)
        } else {
            None
        },
        _ => None,
    }
}

/// Decides whether cell `(x, y)` takes a draw.
fn takes_draw(strategy: Strategy, x: i32, y: i32) -> (drawn: bool)
    requires
        strategy.valid(),
        0 <= x,
        0 <= y,
    ensures
        drawn == strategy.draws_at(x as int, y as int),
{
    match strategy {
        Strategy::Static => true,
        Strategy::Padded(padding) => x % padding == 0 && y % padding == 0,
        Strategy::Lattice => (x as i64 + y as i64) % 2 == 0,
        Strategy::SmoothLattice => (x as i64 + y as i64) % 2 == 0,
    }
}

/// Counts the cells that take a draw.
fn count_cells(strategy: Strategy, width: i32, height: i32) -> (count: usize)
    requires
        strategy.rejection(width as int, height as int) is None,
    ensures
        count == strategy.draws_needed(width as int, height as int),
{
    let mut count: usize = 0;
    let mut x: i32 = 0;
    while x < width
        invariant
            strategy.valid(),
            dimensions_ok(width as int, height as int),
            0 <= x <= width,
            0 <= x * height,
            count == strategy.draws_before(height as int, (x * height) as nat),
        decreases width - x,
    {
        let mut y: i32 = 0;
        while y < height
            invariant
                strategy.valid(),
                dimensions_ok(width as int, height as int),
                0 <= x < width,
                0 <= y <= height,
                0 <= x * height + y,
                count == strategy.draws_before(height as int, (x * height + y) as nat),
            decreases height - y,
        {
            proof {
                lemma_index_in_range(width as int, height as int, x as int, y as int);
                lemma_index_split(height as int, x as int, y as int);
                strategy.lemma_draws_grow(height as int, 0, (x * height + y + 1) as nat);
            }
            if takes_draw(strategy, x, y) {
                count += 1;
            }
            y += 1;
        }
        proof {
            assert((x + 1) * height == x * height + height) by (nonlinear_arith);
        }
        x += 1;
    }
    count
}

/// Counts the random words that a field of the given extent uses up: one
/// for every cell that takes a draw. It gives the reason instead where no
/// such field is made.
pub fn count_draws(strategy: Strategy, width: i32, height: i32) -> (count: Result<
    usize,
    NoiseError,
>)
    ensures
        match count {
            Ok(needed) => strategy.rejection(width as int, height as int) is None && needed
                == strategy.draws_needed(width as int, height as int),
            Err(error) => strategy.rejection(width as int, height as int) == Some(error),
        },
{
    match rejected(strategy, width, height) {
        Some(error) => Err(error),
        None => Ok(count_cells(strategy, width, height)),
    }
}

/// Lays out the samples of a field before any relaxation, or finds that the
/// words run out.
fn sample_cells(strategy: Strategy, width: i32, height: i32, words: &Vec<u64>) -> (cells: Option<
    Vec<u64>,
>)
    requires
        strategy.rejection(width as int, height as int) is None,
    ensures
        cells is Some <==> words.len() >= strategy.draws_needed(width as int, height as int),
        cells is Some ==> cells->0@ == strategy.sampled(width as int, height as int, words@).cells,
{
    let ghost target = strategy.sampled(width as int, height as int, words@);
    let mut cells: Vec<u64> = Vec::new();
    let mut used: usize = 0;
    let mut x: i32 = 0;
    while x < width
        invariant
            strategy.valid(),
            dimensions_ok(width as int, height as int),
            target == strategy.sampled(width as int, height as int, words@),
            0 <= x <= width,
            0 <= x * height <= width * height,
            cells.len() == x * height,
            target.cells.len() == width * height,
            used == strategy.draws_before(height as int, (x * height) as nat),
            used <= words.len(),
            forall|i: int| 0 <= i < cells.len() ==> cells[i] == target.cells[i],
        decreases width - x,
    {
        let mut y: i32 = 0;
        while y < height
            invariant
                strategy.valid(),
                dimensions_ok(width as int, height as int),
                target == strategy.sampled(width as int, height as int, words@),
                0 <= x < width,
                0 <= y <= height,
                0 <= x * height + y <= width * height,
                cells.len() == x * height + y,
                target.cells.len() == width * height,
                used == strategy.draws_before(height as int, (x * height + y) as nat),
                used <= words.len(),
                forall|i: int| 0 <= i < cells.len() ==> cells[i] == target.cells[i],
            decreases height - y,
        {
            proof {
                lemma_index_in_range(width as int, height as int, x as int, y as int);
                lemma_index_split(height as int, x as int, y as int);
            }
            if takes_draw(strategy, x, y) {
                if used >= words.len() {
                    proof {
                        strategy.lemma_draws_grow(
                            height as int,
                            (x * height + y + 1) as nat,
                            (width * height) as nat,
                        );
                    }
                    return None;
                }
                cells.push(sample_from_word(words[used]));
                used += 1;
            } else {
                cells.push(0);
            }
            y += 1;
        }
        proof {
            assert((x + 1) * height == x * height + height) by (nonlinear_arith);
        }
        x += 1;
    }
    assert(cells@ =~= target.cells);
    Some(cells)
}

/// Fills a field from recorded random words.
///
/// The k-th cell that takes a draw uses the k-th word. Words beyond the last
/// draw are left unused. The extent is checked first, then the padding, then
/// the number of words.
pub fn generate_from(strategy: Strategy, width: i32, height: i32, words: &Vec<u64>) -> (made:
    Result<Noise, NoiseError>)
    ensures
        match made {
            Ok(noise) => strategy.outcome(width as int, height as int, words@) == Ok::<
                Field,
                NoiseError,
            >(noise@),
            Err(error) => strategy.outcome(width as int, height as int, words@) == Err::<
                Field,
                NoiseError,
            >(error),
        },
        made matches Ok(noise) ==> noise@.width == width && noise@.height == height
            && noise@.cells.len() == width * height,
{
    if let Some(error) = rejected(strategy, width, height) {
        return Err(error);
    }
    proof {
        lemma_field_extent(strategy, width as int, height as int, words@);
    }
    match sample_cells(strategy, width, height, words) {
        None => Err(NoiseError::NotEnoughWords),
        Some(cells) => {
            let mut noise: Noise = Noise::from_values(width, height, cells).unwrap();
            match strategy {
                Strategy::SmoothLattice => {
                    noise.smooth();
                },
                _ => {},
            }
            Ok(noise)
        },
    }
}

/// Fills a field with words drawn from the thread's generator.
///
/// The words are random, so the field is not determined by the arguments:
/// it is the field that [`generate_from`] makes of some sequence of exactly
/// as many words as the field uses up.
pub fn generate(strategy: Strategy, width: i32, height: i32) -> (made: Result<Noise, NoiseError>)
    ensures
        match made {
            Ok(noise) => strategy.rejection(width as int, height as int) is None && drawn_by(
                strategy,
                width as int,
                height as int,
                noise@,
            ),
            Err(error) => strategy.rejection(width as int, height as int) == Some(error),
        },
        made matches Ok(noise) ==> noise@.width == width && noise@.height == height
            && noise@.cells.len() == width * height,
{
    if let Some(error) = rejected(strategy, width, height) {
        return Err(error);
    }
    let count: usize = count_cells(strategy, width, height);
    let words: Vec<u64> = draw_words(count);
    generate_from(strategy, width, height, &words)
}

/// Whether `noise` is what `strategy` makes, for a field of the given
/// extent, of some sequence of exactly as many words as it uses up.
pub open spec fn drawn_by(strategy: Strategy, width: int, height: int, noise: Field) -> bool {
    exists|words: Seq<u64>|
        words.len() == strategy.draws_needed(width, height) && noise == #[trigger] strategy.field(
            width,
            height,
            words,
        )
}

/// White noise: every cell takes one sample, uniform in `[0, 1)`, from the
/// thread's generator.
pub fn static_noise(width: i32, height: i32) -> (made: Result<Noise, NoiseError>)
    ensures
        match made {
            Ok(noise) => {
                &&& dimensions_ok(width as int, height as int)
                &&& is_static(noise@, width as int, height as int)
                &&& drawn_by(Strategy::Static, width as int, height as int, noise@)
            },
            Err(error) => !dimensions_ok(width as int, height as int) && error
                == NoiseError::InvalidDimensions,
        },
{
    let made = generate(Strategy::Static, width, height);
    proof {
        if made is Ok {
            let words = choose|words: Seq<u64>|
                made->Ok_0@ == #[trigger] Strategy::Static.field(width as int, height as int, words);
            lemma_static_shape(width as int, height as int, words);
        }
    }
    made
}

/// Key points: a cell takes a sample from the thread's generator where its
/// column and its row are both multiples of `padding`, and is zero
/// elsewhere. A padding that is not positive is turned down.
pub fn padded_noise(width: i32, height: i32, padding: i32) -> (made: Result<Noise, NoiseError>)
    ensures
        match made {
            Ok(noise) => {
                &&& dimensions_ok(width as int, height as int)
                &&& padding > 0
                &&& is_padded(noise@, width as int, height as int, padding as int)
                &&& drawn_by(Strategy::Padded(padding), width as int, height as int, noise@)
            },
            Err(error) => if dimensions_ok(width as int, height as int) {
                padding <= 0 && error == NoiseError::InvalidPadding
            } else {
                error == NoiseError::InvalidDimensions
            },
        },
{
    let made = generate(Strategy::Padded(padding), width, height);
    proof {
        if made is Ok {
            let words = choose|words: Seq<u64>|
                made->Ok_0@ == #[trigger] Strategy::Padded(padding).field(
                    width as int,
                    height as int,
                    words,
                );
            lemma_padded_shape(width as int, height as int, padding, words);
        }
    }
    made
}

/// A checkerboard: every anchor takes a sample from the thread's generator
/// and every gap is zero.
pub fn lattice_noise(width: i32, height: i32) -> (made: Result<Noise, NoiseError>)
    ensures
        match made {
            Ok(noise) => {
                &&& dimensions_ok(width as int, height as int)
                &&& is_lattice(noise@, width as int, height as int)
                &&& drawn_by(Strategy::Lattice, width as int, height as int, noise@)
            },
            Err(error) => !dimensions_ok(width as int, height as int) && error
                == NoiseError::InvalidDimensions,
        },
{
    let made = generate(Strategy::Lattice, width, height);
    proof {
        if made is Ok {
            let words = choose|words: Seq<u64>|
                made->Ok_0@ == #[trigger] Strategy::Lattice.field(width as int, height as int, words);
            lemma_lattice_shape(width as int, height as int, words);
        }
    }
    made
}

/// A relaxed checkerboard: the lattice of [`lattice_noise`] after one pass
/// that fills every gap with the mean of its four neighbours.
pub fn smooth_lattice_noise(width: i32, height: i32) -> (made: Result<Noise, NoiseError>)
    ensures
        match made {
            Ok(noise) => {
                &&& dimensions_ok(width as int, height as int)
                &&& is_smooth_lattice(noise@, width as int, height as int)
                &&& drawn_by(Strategy::SmoothLattice, width as int, height as int, noise@)
            },
            Err(error) => !dimensions_ok(width as int, height as int) && error
                == NoiseError::InvalidDimensions,
        },
{
    let made = generate(Strategy::SmoothLattice, width, height);
    proof {
        if made is Ok {
            let words = choose|words: Seq<u64>|
                made->Ok_0@ == #[trigger] Strategy::SmoothLattice.field(
                    width as int,
                    height as int,
                    words,
                );
            lemma_smooth_lattice_shape(width as int, height as int, words);
        }
    }
    made
}

} // verus!
