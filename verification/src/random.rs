//! Random words from the thread's generator.

use vstd::prelude::*;
use rand::rngs::ThreadRng;
use rand::Rng;

verus! {

/// `rand::rngs::ThreadRng`, the handle to the generator of a thread. It is
/// carried from one draw to the next and never looked into.
#[verifier::external_type_specification]
#[verifier::external_body]
pub struct ExThreadRng(ThreadRng);

/// `rand::thread_rng` hands out the generator of the calling thread. Nothing
/// is claimed about its state.
pub assume_specification[ rand::thread_rng ]() -> ThreadRng
;

/// Calls `Rng::gen` for one `u64`, which for the thread's generator is its
/// next 64-bit output. Nothing is claimed about the word: any value may come
/// back, and two calls need not agree.
#[verifier::external_body]
fn next_word(generator: &mut ThreadRng) -> (word: u64) {
    generator.gen()
}

/// Draws `count` words from the thread's generator, in the order in which
/// it yields them.
pub fn draw_words(count: usize) -> (words: Vec<u64>)
    ensures
        words.len() == count,
{
    let mut generator: ThreadRng = rand::thread_rng();
    let mut words: Vec<u64> = Vec::new();
    let mut drawn: usize = 0;
    while drawn < count
        invariant
            drawn <= count,
            words.len() == drawn,
        decreases count - drawn,
    {
        let word: u64 = next_word(&mut generator);
        words.push(word);
        drawn += 1;
    }
    words
}

} // verus!
