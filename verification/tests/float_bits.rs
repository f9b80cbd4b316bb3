use niri_effects::float_bits::F32Bits;

fn bits(x: f32) -> F32Bits {
    F32Bits { bits: x.to_bits() }
}

#[test]
fn equality_is_that_of_floats() {
    let samples = [
        0.0f32,
        -0.0,
        1.0,
        -1.0,
        f32::INFINITY,
        f32::NEG_INFINITY,
        f32::NAN,
        -f32::NAN,
        f32::MIN_POSITIVE,
        1e-42,
    ];
    for a in samples {
        for b in samples {
            assert_eq!(bits(a).equals(bits(b)), a == b, "{a} {b}");
        }
    }
}

#[test]
fn positivity_is_that_of_floats() {
    for x in [
        0.0f32,
        -0.0,
        1.0,
        -1.0,
        f32::INFINITY,
        f32::NEG_INFINITY,
        f32::NAN,
        -f32::NAN,
        1e-42,
        -1e-42,
    ] {
        assert_eq!(bits(x).is_positive(), x > 0.0, "{x}");
    }
}
