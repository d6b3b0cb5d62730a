use glyphplay::error::RenderError;
use glyphplay::feature::{extract_features, Coord, FeatureVector};
use glyphplay::palette::{pythag_distance_sq, Palette};
use ordered_float::NotNan;

const MOONS: [char; 8] = [
    '\u{1F315}',
    '\u{1F316}',
    '\u{1F317}',
    '\u{1F318}',
    '\u{1F311}',
    '\u{1F312}',
    '\u{1F313}',
    '\u{1F314}',
];

const BLOCKS: [[u8; 4]; 8] = [
    [255, 255, 255, 255],
    [255, 255, 255, 0],
    [255, 255, 0, 0],
    [255, 0, 0, 0],
    [0, 0, 0, 0],
    [0, 0, 0, 255],
    [0, 0, 255, 255],
    [0, 255, 255, 255],
];

fn point(a: u8, b: u8, c: u8, d: u8) -> FeatureVector {
    FeatureVector { coords: [Coord::Level(a), Coord::Level(b), Coord::Level(c), Coord::Level(d)] }
}

fn float_distance(a: &[f32], b: &[f32]) -> f32 {
    a.iter().zip(b.iter()).map(|(a, b)| (a - b) * (a - b)).sum::<f32>().sqrt()
}

fn float_nearest(levels: [u8; 4]) -> usize {
    let line: Vec<f32> = levels.iter().map(|v| *v as f32 / 255.0).collect();
    BLOCKS
        .iter()
        .enumerate()
        .min_by_key(|&(_, block)| {
            let block: Vec<f32> = block.iter().map(|v| *v as f32 / 255.0).collect();
            NotNan::new(float_distance(&line, &block)).unwrap()
        })
        .map(|(i, _)| i)
        .unwrap()
}

fn exact_distance(levels: [u8; 4], block: [u8; 4]) -> i64 {
    (0..4).map(|k| (i64::from(levels[k]) - i64::from(block[k])).pow(2)).sum()
}

#[test]
fn reference_palette_has_the_eight_moons() {
    let palette = Palette::reference();
    assert_eq!(palette.len(), 8);
    for i in 0..8 {
        assert_eq!(palette.entry(i), Some((BLOCKS[i], MOONS[i])));
    }
    assert_eq!(palette.entry(8), None);
}

#[test]
fn reference_glyphs_spell_the_alphabet() {
    let palette = Palette::reference();
    let alphabet: String = (0..8).map(|i| palette.entry(i).unwrap().1).collect();
    assert_eq!(alphabet, "🌕🌖🌗🌘🌑🌒🌓🌔");
}

#[test]
fn full_white_matches_entry_0() {
    let palette = Palette::reference();
    let features = extract_features(&[255; 8]).unwrap();
    assert_eq!(pythag_distance_sq(&features, &BLOCKS[0]), Ok(0));
    assert_eq!(palette.nearest(&features), Ok(0));
    assert_eq!(palette.val_to_char(&features), Ok('🌕'));
}

#[test]
fn full_black_matches_entry_4() {
    let palette = Palette::reference();
    let features = extract_features(&[0; 8]).unwrap();
    assert_eq!(pythag_distance_sq(&features, &BLOCKS[4]), Ok(0));
    assert_eq!(palette.nearest(&features), Ok(4));
    assert_eq!(palette.val_to_char(&features), Ok('🌑'));
}

#[test]
fn every_entry_matches_itself() {
    let palette = Palette::reference();
    for (i, block) in BLOCKS.iter().enumerate() {
        let features = point(block[0], block[1], block[2], block[3]);
        assert_eq!(palette.nearest(&features), Ok(i));
        assert_eq!(palette.val_to_char(&features), Ok(MOONS[i]));
    }
}

#[test]
fn tie_between_entries_0_and_2_goes_to_0() {
    let palette = Palette::reference();
    let query = point(255, 255, 127, 128);
    assert_eq!(pythag_distance_sq(&query, &BLOCKS[0]), Ok(32513));
    assert_eq!(pythag_distance_sq(&query, &BLOCKS[2]), Ok(32513));
    assert_eq!(palette.nearest(&query), Ok(0));
}

#[test]
fn tie_between_entries_4_and_6_goes_to_the_nearer_entry_5() {
    let palette = Palette::reference();
    let query = point(0, 0, 127, 128);
    assert_eq!(pythag_distance_sq(&query, &BLOCKS[4]), Ok(32513));
    assert_eq!(pythag_distance_sq(&query, &BLOCKS[6]), Ok(32513));
    assert_eq!(pythag_distance_sq(&query, &BLOCKS[5]), Ok(32258));
    assert_eq!(palette.nearest(&query), Ok(5));
}

#[test]
fn tie_goes_to_the_first_of_equal_entries() {
    let palette = Palette::new(
        vec![[255, 255, 255, 255], [200, 0, 0, 0], [0, 200, 0, 0], [200, 0, 0, 0]],
        vec!['a', 'b', 'c', 'd'],
    )
    .unwrap();
    assert_eq!(palette.nearest(&point(100, 100, 0, 0)), Ok(1));
    assert_eq!(palette.val_to_char(&point(100, 100, 0, 0)), Ok('b'));
    assert_eq!(palette.nearest(&point(200, 0, 0, 0)), Ok(1));
}

#[test]
fn squared_distance_is_the_sum_of_squares() {
    let query = point(10, 30, 50, 70);
    assert_eq!(pythag_distance_sq(&query, &[255, 255, 255, 255]), Ok(186900));
    assert_eq!(pythag_distance_sq(&query, &[0, 0, 0, 0]), Ok(8400));
    assert_eq!(pythag_distance_sq(&query, &[0, 0, 0, 255]), Ok(37725));
    assert_eq!(pythag_distance_sq(&query, &[10, 30, 50, 70]), Ok(0));
    assert_eq!(pythag_distance_sq(&point(0, 0, 0, 0), &[255, 255, 255, 255]), Ok(260100));
    assert_eq!(pythag_distance_sq(&point(255, 255, 255, 255), &[0, 0, 0, 0]), Ok(260100));
}

#[test]
fn squared_distance_is_the_square_of_the_euclidean_distance() {
    let query = point(10, 30, 50, 70);
    let squared = pythag_distance_sq(&query, &[255, 0, 255, 0]).unwrap();
    let distance = float_distance(
        &[10.0 / 255.0, 30.0 / 255.0, 50.0 / 255.0, 70.0 / 255.0],
        &[1.0, 0.0, 1.0, 0.0],
    );
    let expected = f64::from(squared).sqrt() / 255.0;
    assert!((f64::from(distance) - expected).abs() < 1e-6);
}

#[test]
fn dark_row_matches_entry_4() {
    let palette = Palette::reference();
    let features = extract_features(&[10, 20, 30, 40, 50, 60, 70, 80]).unwrap();
    assert_eq!(palette.nearest(&features), Ok(4));
}

#[test]
fn not_a_number_is_degenerate_input() {
    let palette = Palette::reference();
    for k in 0..4 {
        let mut query = point(1, 2, 3, 4);
        query.coords[k] = Coord::NotANumber;
        assert_eq!(palette.nearest(&query), Err(RenderError::DegenerateInput));
        assert_eq!(palette.val_to_char(&query), Err(RenderError::DegenerateInput));
        assert_eq!(pythag_distance_sq(&query, &BLOCKS[0]), Err(RenderError::DegenerateInput));
    }
}

#[test]
fn index_is_always_in_range() {
    let palette = Palette::reference();
    let steps: [u8; 9] = [0, 1, 63, 127, 128, 129, 191, 254, 255];
    for a in steps {
        for b in steps {
            for c in steps {
                for d in steps {
                    let index = palette.nearest(&point(a, b, c, d)).unwrap();
                    assert!(index <= 7);
                }
            }
        }
    }
}

#[test]
fn index_is_the_first_minimum_of_the_exact_distances() {
    let palette = Palette::reference();
    let steps: [u8; 9] = [0, 1, 63, 127, 128, 129, 191, 254, 255];
    for a in steps {
        for b in steps {
            for c in steps {
                for d in steps {
                    let distances: Vec<i64> =
                        BLOCKS.iter().map(|block| exact_distance([a, b, c, d], *block)).collect();
                    let least = *distances.iter().min().unwrap();
                    let first = distances.iter().position(|x| *x == least).unwrap();
                    assert_eq!(palette.nearest(&point(a, b, c, d)), Ok(first));
                }
            }
        }
    }
}

#[test]
fn float_search_agrees_where_one_entry_is_nearest() {
    let palette = Palette::reference();
    let steps: [u8; 11] = [0, 1, 40, 63, 127, 128, 129, 191, 215, 254, 255];
    let mut compared = 0;
    for a in steps {
        for b in steps {
            for c in steps {
                for d in steps {
                    let distances: Vec<i64> =
                        BLOCKS.iter().map(|block| exact_distance([a, b, c, d], *block)).collect();
                    let least = *distances.iter().min().unwrap();
                    if distances.iter().filter(|x| **x == least).count() == 1 {
                        assert_eq!(
                            palette.nearest(&point(a, b, c, d)),
                            Ok(float_nearest([a, b, c, d]))
                        );
                        compared += 1;
                    }
                }
            }
        }
    }
    assert!(compared > 10000);
}

#[test]
fn repeated_matching_gives_the_same_index() {
    let palette = Palette::reference();
    let query = point(12, 200, 99, 180);
    let first = palette.nearest(&query);
    for _ in 0..10 {
        assert_eq!(palette.nearest(&query), first);
    }
}

#[test]
fn palette_without_entries_is_invalid_input() {
    assert_eq!(Palette::new(vec![], vec![]).err(), Some(RenderError::InvalidInput));
}

#[test]
fn palette_with_unequal_lengths_is_invalid_input() {
    assert_eq!(
        Palette::new(vec![[0, 0, 0, 0], [1, 1, 1, 1]], vec!['a']).err(),
        Some(RenderError::InvalidInput)
    );
    assert_eq!(
        Palette::new(vec![[0, 0, 0, 0]], vec!['a', 'b']).err(),
        Some(RenderError::InvalidInput)
    );
}

#[test]
fn palette_of_one_entry_matches_everything() {
    let palette = Palette::new(vec![[5, 6, 7, 8]], vec!['x']).unwrap();
    assert_eq!(palette.len(), 1);
    assert_eq!(palette.entry(0), Some(([5, 6, 7, 8], 'x')));
    assert_eq!(palette.nearest(&point(255, 0, 255, 0)), Ok(0));
    assert_eq!(palette.val_to_char(&point(0, 0, 0, 0)), Ok('x'));
}
