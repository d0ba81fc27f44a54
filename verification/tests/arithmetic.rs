use aerospace_units::scalar::Scalar;

fn s(x: f64) -> Scalar {
    Scalar::from_bits(x.to_bits())
}

fn f(x: Scalar) -> f64 {
    f64::from_bits(x.to_bits())
}

/// Whether a scalar is the double that the machine computed: the same bits,
/// or a NaN for a NaN.
fn same(ours: Scalar, machine: f64) -> bool {
    if machine.is_nan() {
        ours.is_nan()
    } else {
        ours.to_bits() == machine.to_bits()
    }
}

/// A fixed sequence of bit patterns that visits every class of double.
struct Patterns(u64);

impl Patterns {
    fn next_bits(&mut self) -> u64 {
        self.0 = self.0.wrapping_mul(6364136223846793005).wrapping_add(1442695040888963407);
        let mut z = self.0;
        z ^= z >> 33;
        z = z.wrapping_mul(0xff51afd7ed558ccd);
        z ^= z >> 29;
        z
    }

    fn next(&mut self) -> f64 {
        let bits = self.next_bits();
        match self.next_bits() % 8 {
            // any double at all
            0 | 1 => f64::from_bits(bits),
            // of moderate size, so that results stay finite
            2 | 3 | 4 => {
                let exponent = 1023 - 40 + (bits >> 52) % 80;
                f64::from_bits((bits & 0x800F_FFFF_FFFF_FFFF) | (exponent << 52))
            }
            // with few significant bits, so that results are exact or ties
            5 => {
                let exponent = 1023 - 30 + (bits >> 52) % 60;
                f64::from_bits((bits & 0x800F_FF00_0000_0000) | (exponent << 52))
            }
            // subnormal or nearly so
            6 => f64::from_bits(bits & 0x803F_FFFF_FFFF_FFFF),
            // huge
            _ => {
                let exponent = 2000 + (bits >> 52) % 47;
                f64::from_bits((bits & 0x800F_FFFF_FFFF_FFFF) | (exponent << 52))
            }
        }
    }
}

fn corners() -> Vec<f64> {
    vec![
        0.0,
        -0.0,
        1.0,
        -1.0,
        2.0,
        0.5,
        3.0,
        0.1,
        1.0 / 3.0,
        f64::from_bits(1),
        -f64::from_bits(1),
        f64::from_bits(2),
        f64::from_bits(0x000F_FFFF_FFFF_FFFF),
        f64::MIN_POSITIVE,
        f64::from_bits(0x0010_0000_0000_0001),
        f64::EPSILON,
        1.0 + f64::EPSILON,
        1.0 - f64::EPSILON / 2.0,
        1.5,
        std::f64::consts::PI,
        1e-160,
        1e160,
        1.3407807929942597e154,
        f64::MAX,
        f64::MIN,
        f64::MAX / 2.0,
        f64::INFINITY,
        f64::NEG_INFINITY,
        f64::NAN,
    ]
}

#[test]
fn products_are_the_machine_s_at_the_corners() {
    for a in corners() {
        for b in corners() {
            assert!(same(s(a) * s(b), a * b), "{a:e} * {b:e}: {:e}", f(s(a) * s(b)));
        }
    }
}

#[test]
fn products_are_the_machine_s_on_many_patterns() {
    let mut patterns = Patterns(1);
    for _ in 0..60_000 {
        let a = patterns.next();
        let b = patterns.next();
        assert!(same(s(a) * s(b), a * b), "{a:e} * {b:e}: {:e}", f(s(a) * s(b)));
    }
}

#[test]
fn quotients_are_the_machine_s_at_the_corners() {
    for a in corners() {
        for b in corners() {
            assert!(same(s(a) / s(b), a / b), "{a:e} / {b:e}: {:e}", f(s(a) / s(b)));
        }
    }
}

#[test]
fn quotients_are_the_machine_s_on_many_patterns() {
    let mut patterns = Patterns(2);
    for _ in 0..60_000 {
        let a = patterns.next();
        let b = patterns.next();
        assert!(same(s(a) / s(b), a / b), "{a:e} / {b:e}: {:e}", f(s(a) / s(b)));
    }
}

#[test]
fn sums_and_differences_are_the_machine_s_at_the_corners() {
    for a in corners() {
        for b in corners() {
            assert!(same(s(a) + s(b), a + b), "{a:e} + {b:e}: {:e}", f(s(a) + s(b)));
            assert!(same(s(a) - s(b), a - b), "{a:e} - {b:e}: {:e}", f(s(a) - s(b)));
        }
    }
}

#[test]
fn sums_are_the_machine_s_on_many_patterns() {
    let mut patterns = Patterns(3);
    for _ in 0..60_000 {
        let a = patterns.next();
        let b = patterns.next();
        assert!(same(s(a) + s(b), a + b), "{a:e} + {b:e}: {:e}", f(s(a) + s(b)));
    }
}

#[test]
fn differences_are_the_machine_s_on_many_patterns() {
    let mut patterns = Patterns(4);
    for _ in 0..60_000 {
        let a = patterns.next();
        let b = patterns.next();
        assert!(same(s(a) - s(b), a - b), "{a:e} - {b:e}: {:e}", f(s(a) - s(b)));
    }
}

#[test]
fn sums_of_near_neighbours_are_the_machine_s() {
    // operands a few binades apart, where alignment, ties and cancellation
    // all come into play
    let mut patterns = Patterns(5);
    for _ in 0..60_000 {
        let a = patterns.next_bits();
        let shift = patterns.next_bits() % 70;
        let x = f64::from_bits((a & 0x800F_FFFF_FFFF_FFFF) | (1100 << 52));
        let y = f64::from_bits(
            (patterns.next_bits() & 0x800F_FFFF_F000_0000) | ((1100 - shift) << 52),
        );
        assert!(same(s(x) + s(y), x + y), "{x:e} + {y:e}");
        assert!(same(s(x) - s(y), x - y), "{x:e} - {y:e}");
        assert!(same(s(y) - s(x), y - x), "{y:e} - {x:e}");
    }
}

#[test]
fn remainders_are_the_machine_s_at_the_corners() {
    for a in corners() {
        for b in corners() {
            assert!(same(s(a) % s(b), a % b), "{a:e} % {b:e}: {:e}", f(s(a) % s(b)));
        }
    }
}

#[test]
fn remainders_are_the_machine_s_on_many_patterns() {
    let mut patterns = Patterns(6);
    for _ in 0..20_000 {
        let a = patterns.next();
        let b = patterns.next();
        assert!(same(s(a) % s(b), a % b), "{a:e} % {b:e}: {:e}", f(s(a) % s(b)));
    }
}

#[test]
fn a_remainder_keeps_the_sign_of_the_dividend() {
    assert_eq!((s(-6.0) % s(3.0)).to_bits(), (-0.0f64).to_bits());
    assert_eq!((s(6.0) % s(-3.0)).to_bits(), 0.0f64.to_bits());
    assert_eq!(f(s(-7.5) % s(2.0)), -1.5);
    assert_eq!(f(s(7.5) % s(-2.0)), 1.5);
    assert_eq!(f(s(1e300) % s(3.0)), 1e300 % 3.0);
}
