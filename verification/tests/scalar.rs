use feoray::scalar::Scalar;

fn s(x: f64) -> Scalar {
    Scalar::from_bits(x.to_bits())
}

#[test]
fn order_follows_the_hardware() {
    let samples = [
        0.0, -0.0, 1.0, -1.0, 1.0e-5, -1.0e-5, 4.0, 4.5, f64::MAX, f64::MIN, f64::MIN_POSITIVE,
        5e-324, -5e-324, f64::INFINITY, f64::NEG_INFINITY, f64::NAN,
    ];
    for a in samples {
        for b in samples {
            assert_eq!(s(a).lt(&s(b)), a < b);
            assert_eq!(s(a).le(&s(b)), a <= b);
            assert_eq!(s(a).gt(&s(b)), a > b);
            assert_eq!(s(a).ge(&s(b)), a >= b);
            assert_eq!(s(a) == s(b), a == b);
        }
        assert_eq!(s(a).neg().to_bits(), (-a).to_bits());
        assert_eq!(s(a).abs().to_bits(), a.abs().to_bits());
        assert_eq!(s(a).is_nan(), a.is_nan());
        assert_eq!(s(a).is_finite(), a.is_finite());
    }
}

fn hardware_near(a: f64, b: f64) -> bool {
    (a - b).abs() < 1.0e-5
}

fn step(state: &mut u64) -> u64 {
    *state ^= *state << 13;
    *state ^= *state >> 7;
    *state ^= *state << 17;
    *state
}

#[test]
fn near_follows_the_rounded_difference() {
    let fixed = [
        0.0, -0.0, 1.0e-5, -1.0e-5, 0.5e-5, -0.5e-5, 1.0, 4.0, 4.00001, 4.000009, 3.99999,
        5e-324, -5e-324, f64::MIN_POSITIVE, 1.0e-300, 1.0e300, f64::MAX, f64::MIN, 65536.0,
        68719476736.0, 72057594037927936.0, f64::INFINITY, f64::NEG_INFINITY, f64::NAN,
    ];
    for a in fixed {
        for b in fixed {
            assert_eq!(s(a).near(&s(b)), hardware_near(a, b), "{a:e} {b:e}");
        }
    }
    let mut state: u64 = 0x9E37_79B9_7F4A_7C15;
    for round in 0..200_000u32 {
        let a = f64::from_bits(step(&mut state));
        let b = match round % 4 {
            0 => f64::from_bits(step(&mut state)),
            1 => f64::from_bits(a.to_bits().wrapping_add(step(&mut state) % 64)),
            2 => a + f64::from_bits(EPSILON_EDGE.wrapping_add(step(&mut state) % 5).wrapping_sub(2)),
            _ => a - f64::from_bits(EPSILON_EDGE.wrapping_add(step(&mut state) % 5).wrapping_sub(2)),
        };
        assert_eq!(s(a).near(&s(b)), hardware_near(a, b), "{a:e} {b:e}");
        assert_eq!(s(b).near(&s(a)), hardware_near(b, a), "{b:e} {a:e}");
    }
}

const EPSILON_EDGE: u64 = 0x3EE4_F8B5_88E3_68F1;

#[test]
fn near_at_the_edge_of_the_tolerance() {
    let mut state: u64 = 0x2545_F491_4F6C_DD1D;
    for round in 0..200_000u32 {
        // a number of moderate size, and a second one about 1.0e-5 away from it
        let exponent = 950 + step(&mut state) % 130;
        let a_bits = (exponent << 52) | (step(&mut state) >> 12) | ((step(&mut state) & 1) << 63);
        let a = f64::from_bits(a_bits);
        let wobble = f64::from_bits(EPSILON_EDGE.wrapping_add(step(&mut state) % 9).wrapping_sub(4));
        let b = if round % 2 == 0 { a + wobble } else { a - wobble };
        let c = f64::from_bits(b.to_bits().wrapping_add(step(&mut state) % 7).wrapping_sub(3));
        assert_eq!(s(a).near(&s(b)), hardware_near(a, b), "{a:e} {b:e}");
        assert_eq!(s(a).near(&s(c)), hardware_near(a, c), "{a:e} {c:e}");
        assert_eq!(s(c).near(&s(a)), hardware_near(c, a), "{c:e} {a:e}");
    }
    // differences that are exactly the tolerance, its neighbours, and the halfway points
    let eps = 1.0e-5_f64;
    let below = f64::from_bits(eps.to_bits() - 1);
    for base in [0.0, eps, -eps, below, 2.0 * eps, 1.0, -1.0, 0.001] {
        for delta in [eps, below, f64::from_bits(eps.to_bits() + 1), eps / 2.0, below / 2.0] {
            for other in [base + delta, base - delta] {
                assert_eq!(s(base).near(&s(other)), hardware_near(base, other));
                assert_eq!(s(other).near(&s(base)), hardware_near(other, base));
            }
        }
    }
}

#[test]
fn even_follows_the_remainder() {
    let fixed = [
        0.0, -0.0, 1.0, 2.0, -2.0, 3.0, -3.0, 0.5, 2.5, 4.0, 1.0e-5, 5e-324, 9007199254740992.0,
        9007199254740991.0, 9007199254740990.0, 4503599627370496.0, 4503599627370497.0,
        4503599627370495.5, 1.0e300, f64::MAX, f64::INFINITY, f64::NEG_INFINITY, f64::NAN,
    ];
    for a in fixed {
        assert_eq!(s(a).is_even(), a % 2.0 == 0.0, "{a:e}");
    }
    let mut state: u64 = 0x1234_5678_9ABC_DEF1;
    for round in 0..200_000u32 {
        let raw = f64::from_bits(step(&mut state));
        let a = if round % 2 == 0 { raw } else { (raw % 1.0e6).floor() };
        assert_eq!(s(a).is_even(), a % 2.0 == 0.0, "{a:e}");
    }
}
