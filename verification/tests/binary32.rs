use lane_search::binary32::Binary32;

fn b(x: f32) -> Binary32 {
    Binary32::from_bits(x.to_bits())
}

fn samples() -> Vec<f32> {
    vec![
        0.0,
        -0.0,
        1.0,
        -1.0,
        0.001,
        0.01,
        0.05,
        0.15,
        0.2,
        0.5,
        0.57,
        0.58,
        0.9,
        1.5,
        -0.25,
        -3.75,
        1.0e-40,
        -1.0e-40,
        f32::MIN_POSITIVE,
        f32::MAX,
        f32::MIN,
        f32::INFINITY,
        f32::NEG_INFINITY,
        f32::NAN,
        -f32::NAN,
    ]
}

#[test]
fn ordering_agrees_with_the_numbers() {
    for &x in samples().iter() {
        for &y in samples().iter() {
            assert_eq!(b(x).lt(b(y)), x < y, "{} < {}", x, y);
            assert_eq!(b(x).le(b(y)), x <= y, "{} <= {}", x, y);
            assert_eq!(b(x).gt(b(y)), x > y, "{} > {}", x, y);
            assert_eq!(b(x).ge(b(y)), x >= y, "{} >= {}", x, y);
        }
    }
}

#[test]
fn nan_is_recognised() {
    for &x in samples().iter() {
        assert_eq!(b(x).is_nan(), x.is_nan());
    }
    assert!(Binary32::from_bits(0x7fc0_0000).is_nan());
    assert!(Binary32::from_bits(0x7f80_0001).is_nan());
    assert!(!Binary32::from_bits(0x7f80_0000).is_nan());
    assert!(!Binary32::from_bits(0xff80_0000).is_nan());
}

#[test]
fn order_key_is_monotone() {
    for &x in samples().iter() {
        for &y in samples().iter() {
            if x.is_nan() || y.is_nan() {
                continue;
            }
            assert_eq!(b(x).order_key() < b(y).order_key(), x < y);
            assert_eq!(b(x).order_key() == b(y).order_key(), x == y);
        }
    }
    assert_eq!(b(0.0).order_key(), 0);
    assert_eq!(b(-0.0).order_key(), 0);
    assert_eq!(b(1.0).order_key(), 0x3f80_0000);
    assert_eq!(b(-1.0).order_key(), -0x3f80_0000);
}

#[test]
fn clamp_agrees_with_the_numbers() {
    let bounds = [(0.001f32, 1.0f32), (0.01, 1.0), (-1.0, 1.0), (0.0, 0.0)];
    for &(lo, hi) in bounds.iter() {
        for &x in samples().iter() {
            let got = b(x).clamp(b(lo), b(hi));
            let want = x.clamp(lo, hi);
            if want.is_nan() {
                assert!(got.is_nan());
            } else {
                assert_eq!(f32::from_bits(got.to_bits()), want, "{} in [{}, {}]", x, lo, hi);
            }
        }
    }
}

#[test]
fn bits_round_trip() {
    assert_eq!(Binary32::from_bits(0x3f00_0000).to_bits(), 0x3f00_0000);
    assert_eq!(b(0.5).to_bits(), 0x3f00_0000);
}
