use noise_field::{
    count_draws, draw_words, generate, generate_from, lattice_noise, padded_noise,
    sample_from_word, smooth_lattice_noise, static_noise, Noise, NoiseError, Strategy, HALF, ONE,
};

/// The word whose sample is `eighths / 8`, with some low bits that the
/// sample does not keep.
fn word(eighths: u64) -> u64 {
    (eighths << 61) + 1234
}

fn is_fresh(value: u64) -> bool {
    value < ONE && value % 4 == 0
}

#[test]
fn smooth_lattice_from_known_words() {
    // Samples, in the order of the draws:
    // (0,0)=0.25 (0,2)=0.5 (1,1)=0.75 (1,3)=0.125 (2,0)=0 (2,2)=0.625 (3,1)=0.375 (3,3)=0.875
    let words: Vec<u64> =
        vec![word(2), word(4), word(6), word(1), word(0), word(5), word(3), word(7)];
    let noise = generate_from(Strategy::SmoothLattice, 4, 4, &words).unwrap();
    let expected: [[f64; 4]; 4] = [
        [0.25, 0.5, 0.5, 0.40625],
        [0.375, 0.75, 0.5, 0.125],
        [0.0, 0.4375, 0.625, 0.53125],
        [0.34375, 0.375, 0.59375, 0.875],
    ];
    assert_eq!(noise.width(), 4);
    assert_eq!(noise.height(), 4);
    assert_eq!(noise.values().len(), 16);
    for x in 0..4 {
        for y in 0..4 {
            let want = expected[x as usize][y as usize];
            assert_eq!(noise.get(x, y) as f64 / ONE as f64, want);
            assert_eq!(noise.get(x, y), (want * ONE as f64) as u64);
        }
    }
}

#[test]
fn lattice_from_known_words() {
    let words: Vec<u64> = vec![word(1), word(2), word(3), word(4), word(5)];
    let noise = generate_from(Strategy::Lattice, 3, 3, &words).unwrap();
    let e = ONE / 8;
    let expected = Noise::from_values(3, 3, vec![e, 0, 2 * e, 0, 3 * e, 0, 4 * e, 0, 5 * e]);
    assert_eq!(Some(noise), expected);
}

#[test]
fn lattice_of_uneven_extent_from_known_words() {
    // Two columns of three rows: anchors (0,0), (0,2), (1,1).
    let words: Vec<u64> = vec![word(1), word(2), word(3)];
    let noise = generate_from(Strategy::Lattice, 2, 3, &words).unwrap();
    let e = ONE / 8;
    assert_eq!(noise.values(), &vec![e, 0, 2 * e, 0, 3 * e, 0]);
    // Three columns of two rows: anchors (0,0), (1,1), (2,0).
    let noise = generate_from(Strategy::Lattice, 3, 2, &words).unwrap();
    assert_eq!(noise.values(), &vec![e, 0, 0, 2 * e, 3 * e, 0]);
}

#[test]
fn static_from_known_words() {
    let words: Vec<u64> = vec![word(7), word(0), word(3), word(3), word(1), word(6)];
    let noise = generate_from(Strategy::Static, 2, 3, &words).unwrap();
    let e = ONE / 8;
    assert_eq!(noise.values(), &vec![7 * e, 0, 3 * e, 3 * e, e, 6 * e]);
    assert_eq!(noise.get(1, 0), 3 * e);
}

#[test]
fn padded_from_known_words() {
    // Key points at (0,0), (0,2), (2,0), (2,2).
    let words: Vec<u64> = vec![word(1), word(2), word(3), word(4)];
    let noise = generate_from(Strategy::Padded(2), 4, 4, &words).unwrap();
    let e = ONE / 8;
    let expected: Vec<u64> = vec![
        e, 0, 2 * e, 0, //
        0, 0, 0, 0, //
        3 * e, 0, 4 * e, 0, //
        0, 0, 0, 0,
    ];
    assert_eq!(noise.values(), &expected);
}

#[test]
fn padded_with_padding_one_draws_everywhere() {
    let words: Vec<u64> = vec![word(1), word(2), word(3), word(4)];
    let padded = generate_from(Strategy::Padded(1), 2, 2, &words).unwrap();
    let white = generate_from(Strategy::Static, 2, 2, &words).unwrap();
    assert_eq!(padded, white);
}

#[test]
fn padded_with_a_wide_padding_draws_once() {
    let words: Vec<u64> = vec![word(5)];
    let noise = generate_from(Strategy::Padded(10), 3, 3, &words).unwrap();
    let mut expected: Vec<u64> = vec![0; 9];
    expected[0] = ONE / 8 * 5;
    assert_eq!(noise.values(), &expected);
}

#[test]
fn words_beyond_the_last_draw_are_left() {
    let exact: Vec<u64> = vec![word(1), word(2), word(3), word(4), word(5)];
    let mut longer = exact.clone();
    longer.push(word(6));
    longer.push(word(7));
    assert_eq!(
        generate_from(Strategy::Lattice, 3, 3, &longer),
        generate_from(Strategy::Lattice, 3, 3, &exact)
    );
}

#[test]
fn too_few_words_are_turned_down() {
    let words: Vec<u64> = vec![word(1), word(2), word(3), word(4)];
    assert_eq!(generate_from(Strategy::Lattice, 3, 3, &words), Err(NoiseError::NotEnoughWords));
    assert_eq!(generate_from(Strategy::Static, 1, 5, &words), Err(NoiseError::NotEnoughWords));
    assert_eq!(generate_from(Strategy::Padded(2), 5, 1, &vec![1, 2]), Err(NoiseError::NotEnoughWords));
    assert_eq!(generate_from(Strategy::SmoothLattice, 1, 1, &vec![]), Err(NoiseError::NotEnoughWords));
    assert!(generate_from(Strategy::Static, 1, 4, &words).is_ok());
}

#[test]
fn extents_that_are_not_positive_are_turned_down() {
    let words: Vec<u64> = vec![0; 16];
    for strategy in [Strategy::Static, Strategy::Padded(2), Strategy::Lattice, Strategy::SmoothLattice] {
        assert_eq!(generate_from(strategy, 0, 4, &words), Err(NoiseError::InvalidDimensions));
        assert_eq!(generate_from(strategy, 4, 0, &words), Err(NoiseError::InvalidDimensions));
        assert_eq!(generate_from(strategy, -4, 4, &words), Err(NoiseError::InvalidDimensions));
        assert_eq!(generate_from(strategy, 4, i32::MIN, &words), Err(NoiseError::InvalidDimensions));
        assert_eq!(generate(strategy, 0, 0), Err(NoiseError::InvalidDimensions));
        assert_eq!(generate(strategy, -1, 7), Err(NoiseError::InvalidDimensions));
    }
    assert_eq!(static_noise(0, 5), Err(NoiseError::InvalidDimensions));
    assert_eq!(padded_noise(5, -5, 2), Err(NoiseError::InvalidDimensions));
    assert_eq!(lattice_noise(-1, -1), Err(NoiseError::InvalidDimensions));
    assert_eq!(smooth_lattice_noise(7, 0), Err(NoiseError::InvalidDimensions));
}

#[test]
fn a_padding_that_is_not_positive_is_turned_down() {
    let words: Vec<u64> = vec![0; 16];
    assert_eq!(generate_from(Strategy::Padded(0), 4, 4, &words), Err(NoiseError::InvalidPadding));
    assert_eq!(generate_from(Strategy::Padded(-2), 4, 4, &words), Err(NoiseError::InvalidPadding));
    assert_eq!(generate(Strategy::Padded(0), 4, 4), Err(NoiseError::InvalidPadding));
    assert_eq!(padded_noise(4, 4, 0), Err(NoiseError::InvalidPadding));
    assert_eq!(padded_noise(4, 4, -1), Err(NoiseError::InvalidPadding));
    assert_eq!(padded_noise(4, 4, i32::MIN), Err(NoiseError::InvalidPadding));
}

#[test]
fn the_extent_is_checked_before_the_padding_and_the_words() {
    assert_eq!(generate_from(Strategy::Padded(0), 0, 4, &vec![]), Err(NoiseError::InvalidDimensions));
    assert_eq!(generate_from(Strategy::Padded(0), 4, 4, &vec![]), Err(NoiseError::InvalidPadding));
    assert_eq!(padded_noise(0, 4, 0), Err(NoiseError::InvalidDimensions));
}

#[test]
fn count_draws_counts_the_cells_that_draw() {
    assert_eq!(count_draws(Strategy::Static, 3, 4), Ok(12));
    assert_eq!(count_draws(Strategy::Lattice, 3, 3), Ok(5));
    assert_eq!(count_draws(Strategy::Lattice, 4, 4), Ok(8));
    assert_eq!(count_draws(Strategy::Lattice, 2, 3), Ok(3));
    assert_eq!(count_draws(Strategy::SmoothLattice, 4, 4), Ok(8));
    assert_eq!(count_draws(Strategy::SmoothLattice, 1, 1), Ok(1));
    assert_eq!(count_draws(Strategy::Padded(2), 5, 5), Ok(9));
    assert_eq!(count_draws(Strategy::Padded(2), 4, 4), Ok(4));
    assert_eq!(count_draws(Strategy::Padded(3), 4, 7), Ok(6));
    assert_eq!(count_draws(Strategy::Padded(10), 4, 4), Ok(1));
    assert_eq!(count_draws(Strategy::Padded(1), 4, 4), Ok(16));
}

#[test]
fn count_draws_turns_down_what_generate_turns_down() {
    assert_eq!(count_draws(Strategy::Static, 0, 4), Err(NoiseError::InvalidDimensions));
    assert_eq!(count_draws(Strategy::Lattice, 4, -4), Err(NoiseError::InvalidDimensions));
    assert_eq!(count_draws(Strategy::Padded(0), 4, 4), Err(NoiseError::InvalidPadding));
    assert_eq!(count_draws(Strategy::Padded(0), 0, 4), Err(NoiseError::InvalidDimensions));
}

#[test]
fn draw_words_draws_as_many_as_asked() {
    assert_eq!(draw_words(0).len(), 0);
    assert_eq!(draw_words(1).len(), 1);
    assert_eq!(draw_words(257).len(), 257);
}

#[test]
fn draw_words_are_not_all_alike() {
    let words = draw_words(64);
    assert!(words.iter().any(|w| *w != words[0]));
}

#[test]
fn static_noise_fills_every_cell_with_a_sample() {
    let noise = static_noise(7, 9).unwrap();
    assert_eq!(noise.width(), 7);
    assert_eq!(noise.height(), 9);
    assert_eq!(noise.values().len(), 63);
    for x in 0..7 {
        for y in 0..9 {
            assert!(is_fresh(noise.get(x, y)));
        }
    }
    assert!(noise.values().iter().any(|v| *v != 0));
}

#[test]
fn padded_noise_is_zero_off_the_key_points() {
    let noise = padded_noise(9, 7, 3).unwrap();
    assert_eq!(noise.width(), 9);
    assert_eq!(noise.height(), 7);
    assert_eq!(noise.values().len(), 63);
    for x in 0..9 {
        for y in 0..7 {
            if x % 3 == 0 && y % 3 == 0 {
                assert!(is_fresh(noise.get(x, y)));
            } else {
                assert_eq!(noise.get(x, y), 0);
            }
        }
    }
}

#[test]
fn lattice_noise_is_zero_in_the_gaps() {
    let noise = lattice_noise(16, 16).unwrap();
    assert_eq!(noise.values().len(), 256);
    let mut anchors_above_zero = 0;
    for x in 0..16 {
        for y in 0..16 {
            if (x + y) % 2 != 0 {
                assert_eq!(noise.get(x, y), 0);
            } else {
                assert!(is_fresh(noise.get(x, y)));
                if noise.get(x, y) != 0 {
                    anchors_above_zero += 1;
                }
            }
        }
    }
    assert!(anchors_above_zero > 0);
}

#[test]
fn smooth_lattice_noise_fills_the_gaps_with_exact_means() {
    let noise = smooth_lattice_noise(9, 6).unwrap();
    assert_eq!(noise.width(), 9);
    assert_eq!(noise.height(), 6);
    assert_eq!(noise.values().len(), 54);
    for x in 0..9 {
        for y in 0..6 {
            if (x + y) % 2 == 0 {
                assert!(is_fresh(noise.get(x, y)));
            } else {
                let sum = noise.get(x - 1, y) as u128 + noise.get(x + 1, y) as u128
                    + noise.get(x, y - 1) as u128 + noise.get(x, y + 1) as u128;
                assert_eq!(noise.get(x, y) as u128 * 4, sum);
                assert!(noise.get(x, y) < ONE);
            }
        }
    }
}

#[test]
fn smooth_lattice_is_the_lattice_after_one_pass() {
    let words = draw_words(count_draws(Strategy::Lattice, 6, 5).unwrap());
    let mut lattice = generate_from(Strategy::Lattice, 6, 5, &words).unwrap();
    let smooth = generate_from(Strategy::SmoothLattice, 6, 5, &words).unwrap();
    for x in 0..6 {
        for y in 0..5 {
            if (x + y) % 2 == 0 {
                assert_eq!(smooth.get(x, y), lattice.get(x, y));
            } else {
                let sum = lattice.get(x - 1, y) + lattice.get(x + 1, y) + lattice.get(x, y - 1)
                    + lattice.get(x, y + 1);
                assert_eq!(smooth.get(x, y), sum / 4);
            }
        }
    }
    lattice.smooth();
    assert_eq!(lattice, smooth);
}

#[test]
fn an_edge_gap_of_the_lattice_blends_in_half() {
    let words: Vec<u64> =
        vec![word(2), word(4), word(6), word(1), word(0), word(5), word(3), word(7)];
    let noise = generate_from(Strategy::SmoothLattice, 4, 4, &words).unwrap();
    let e = ONE / 8;
    // (0, 1): left is missing; right 0.75, up 0.25, down 0.5.
    assert_eq!(noise.get(0, 1) * 4, HALF + 6 * e + 2 * e + 4 * e);
    // (3, 0): right and up are missing; left 0, down 0.375.
    assert_eq!(noise.get(3, 0) * 4, 0 + HALF + HALF + 3 * e);
}

#[test]
fn generate_follows_the_strategy() {
    let white = generate(Strategy::Static, 4, 4).unwrap();
    assert!(white.values().iter().all(|v| is_fresh(*v)));
    let padded = generate(Strategy::Padded(2), 4, 4).unwrap();
    assert_eq!(padded.get(1, 0), 0);
    assert_eq!(padded.get(1, 1), 0);
    assert_eq!(padded.get(2, 3), 0);
    let lattice = generate(Strategy::Lattice, 4, 4).unwrap();
    assert_eq!(lattice.get(0, 1), 0);
    assert_eq!(lattice.get(3, 2), 0);
    let smooth = generate(Strategy::SmoothLattice, 1, 2).unwrap();
    assert_eq!(smooth.get(0, 1) * 4, 3 * HALF + smooth.get(0, 0));
}

#[test]
fn the_default_extent_can_be_made() {
    let noise = smooth_lattice_noise(256, 256).unwrap();
    assert_eq!(noise.values().len(), 65536);
    assert_eq!(noise.get(256, 0), HALF);
    assert_eq!(noise.get(0, 256), HALF);
}

#[test]
fn samples_come_from_the_words_in_order() {
    let words: Vec<u64> = vec![0xffff_ffff_ffff_ffff, 0x8000_0000_0000_07ff, 0x0000_0000_0000_0800];
    let noise = generate_from(Strategy::Static, 3, 1, &words).unwrap();
    assert_eq!(noise.get(0, 0), sample_from_word(words[0]));
    assert_eq!(noise.get(1, 0), sample_from_word(words[1]));
    assert_eq!(noise.get(2, 0), sample_from_word(words[2]));
    assert_eq!(noise.values(), &vec![ONE - 4, HALF, 4]);
}

#[test]
fn a_word_for_every_cell_is_enough() {
    let words: Vec<u64> = vec![word(3); 20];
    for strategy in [Strategy::Static, Strategy::Padded(3), Strategy::Lattice, Strategy::SmoothLattice] {
        let noise = generate_from(strategy, 4, 5, &words).unwrap();
        assert_eq!(noise.width(), 4);
        assert_eq!(noise.height(), 5);
        assert_eq!(noise.values().len(), 20);
        assert!(count_draws(strategy, 4, 5).unwrap() <= 20);
    }
    assert_eq!(count_draws(Strategy::Static, 4, 5), Ok(20));
}

#[test]
fn count_draws_agrees_with_the_closed_forms() {
    for width in 1..7 {
        for height in 1..7 {
            let cells = (width * height) as usize;
            assert_eq!(count_draws(Strategy::Static, width, height), Ok(cells));
            assert_eq!(count_draws(Strategy::Lattice, width, height), Ok((cells + 1) / 2));
            assert_eq!(count_draws(Strategy::SmoothLattice, width, height), Ok((cells + 1) / 2));
            for padding in 1..5 {
                let across = ((width + padding - 1) / padding) as usize;
                let down = ((height + padding - 1) / padding) as usize;
                assert_eq!(count_draws(Strategy::Padded(padding), width, height), Ok(across * down));
            }
        }
    }
}
