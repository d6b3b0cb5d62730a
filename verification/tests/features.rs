use glyphplay::error::RenderError;
use glyphplay::feature::{extract_features, Coord, FeatureVector, FULL_SCALE, ROW_SAMPLES};

fn levels(features: &FeatureVector) -> Vec<u8> {
    features
        .coords
        .iter()
        .map(|c| match c {
            Coord::Level(n) => *n,
            Coord::NotANumber => panic!("a level was expected"),
        })
        .collect()
}

#[test]
fn decimation_keeps_even_positions() {
    let features = extract_features(&[10, 20, 30, 40, 50, 60, 70, 80]).unwrap();
    assert_eq!(
        features.coords,
        [Coord::Level(10), Coord::Level(30), Coord::Level(50), Coord::Level(70)]
    );
}

#[test]
fn decimation_gives_the_normalised_values() {
    let features = extract_features(&[10, 20, 30, 40, 50, 60, 70, 80]).unwrap();
    let normalised: Vec<f64> = levels(&features)
        .iter()
        .map(|n| f64::from(*n) / f64::from(FULL_SCALE))
        .collect();
    assert_eq!(normalised, vec![10.0 / 255.0, 30.0 / 255.0, 50.0 / 255.0, 70.0 / 255.0]);
}

#[test]
fn decimation_is_removal_of_positions_7_5_3_1() {
    let row: Vec<u8> = vec![3, 14, 15, 92, 65, 35, 89, 79];
    let mut kept = row.clone();
    for i in [7, 5, 3, 1] {
        kept.remove(i);
    }
    let features = extract_features(&row).unwrap();
    assert_eq!(levels(&features), kept);
}

#[test]
fn full_white_row_is_all_ones() {
    let features = extract_features(&[255; 8]).unwrap();
    assert_eq!(features.coords, [Coord::Level(255); 4]);
    let normalised: Vec<f64> = levels(&features).iter().map(|n| f64::from(*n) / 255.0).collect();
    assert_eq!(normalised, vec![1.0, 1.0, 1.0, 1.0]);
}

#[test]
fn full_black_row_is_all_zeros() {
    let features = extract_features(&[0; 8]).unwrap();
    assert_eq!(features.coords, [Coord::Level(0); 4]);
}

#[test]
fn short_row_is_invalid_input() {
    assert_eq!(extract_features(&[1, 2, 3]), Err(RenderError::InvalidInput));
}

#[test]
fn empty_row_is_invalid_input() {
    assert_eq!(extract_features(&[]), Err(RenderError::InvalidInput));
}

#[test]
fn long_row_is_invalid_input() {
    assert_eq!(extract_features(&[7; 9]), Err(RenderError::InvalidInput));
}

#[test]
fn feature_constants() {
    assert_eq!(ROW_SAMPLES, 8);
    assert_eq!(FULL_SCALE, 255);
}
