use niri_effects::sdf::{signed_distance_raster, SignedDistance};

fn value(d: &SignedDistance) -> f32 {
    let distance = match d.squared {
        Some(squared) => (squared as f32).sqrt(),
        None => f32::INFINITY,
    };
    if d.inside {
        -distance
    } else {
        distance
    }
}

fn alphas(alphas: &[u8]) -> Vec<u8> {
    alphas.iter().flat_map(|a| [0, 0, 0, *a]).collect()
}

fn values(pixels: &[u8], width: usize, height: usize) -> Vec<f32> {
    signed_distance_raster(pixels, width, height).iter().map(value).collect()
}

#[test]
fn signed_distance_is_negative_inside_and_positive_outside() {
    let pixels = [0, 0, 0, 0, 0, 0, 0, 255, 0, 0, 0, 0];
    let raster = signed_distance_raster(&pixels, 3, 1);
    let sdf: Vec<f32> = raster.iter().map(value).collect();
    assert!(sdf[0] > 0.0);
    assert!(sdf[1] < 0.0);
    assert!(sdf[2] > 0.0);
}

#[test]
fn distances_are_euclidean() {
    // A single solid pixel in the corner of a raster of four by three.
    let mut a = [0u8; 12];
    a[0] = 255;
    let sdf = values(&alphas(&a), 4, 3);
    assert_eq!(sdf[0], -1.0);
    assert_eq!(sdf[3], 3.0);
    assert_eq!(sdf[4 + 1], 2.0f32.sqrt());
    assert_eq!(sdf[2 * 4 + 3], 13.0f32.sqrt());
}

#[test]
fn half_alpha_is_solid() {
    assert_eq!(values(&alphas(&[127, 128]), 2, 1), vec![1.0, -1.0]);
}

#[test]
fn without_an_edge_there_is_no_distance() {
    assert_eq!(values(&alphas(&[0, 0]), 2, 1), vec![f32::INFINITY; 2]);
    assert_eq!(values(&alphas(&[255, 255]), 1, 2), vec![f32::NEG_INFINITY; 2]);
}

#[test]
fn inverting_the_silhouette_turns_the_sign_over() {
    let a = [0, 255, 255, 0, 0, 255];
    let inverted: Vec<u8> = a.iter().map(|x| 255 - x).collect();
    let sdf = values(&alphas(&a), 3, 2);
    let other = values(&alphas(&inverted), 3, 2);
    for (x, y) in sdf.iter().zip(&other) {
        assert_eq!(*x, -*y);
    }
}

#[test]
fn pixels_beyond_the_raster_are_zero() {
    let sdf = values(&alphas(&[255, 0, 255]), 1, 1);
    assert_eq!(sdf, vec![f32::NEG_INFINITY, 0.0, 0.0]);
    assert_eq!(signed_distance_raster(&[], 0, 0).len(), 0);
    // Bytes short of a pixel do not count.
    assert_eq!(signed_distance_raster(&[0, 0, 0, 0, 9], 1, 1).len(), 1);
}
