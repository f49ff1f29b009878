use cfgpp::number::{double_from_int, double_less};

#[test]
fn integers_convert_as_the_machine_converts() {
    let mut samples: Vec<i64> = vec![
        0,
        1,
        -1,
        2,
        3,
        5432,
        -5432,
        i64::MAX,
        i64::MIN,
        i64::MAX - 1,
        i64::MIN + 1,
        (1 << 52) - 1,
        1 << 52,
        (1 << 52) + 1,
        (1 << 53) - 1,
        1 << 53,
        (1 << 53) + 1,
        (1 << 53) + 2,
        (1 << 53) + 3,
        (1 << 54) + 1,
        (1 << 54) + 2,
        (1 << 54) + 3,
        (1 << 54) + 6,
        (1 << 62) + (1 << 9),
        (1 << 62) + (1 << 9) + 1,
        (1 << 62) + (1 << 9) - 1,
        (1 << 62) + 3 * (1 << 9),
        i64::MAX - (1 << 9),
        i64::MAX - (1 << 10),
        i64::MAX - (1 << 10) + 1,
    ];
    let mut state: u64 = 0x2545_f491_4f6c_dd1d;
    for _ in 0..20000 {
        state ^= state << 13;
        state ^= state >> 7;
        state ^= state << 17;
        let shift = (state >> 58) as u32;
        samples.push((state as i64) >> shift);
    }
    for i in samples.clone() {
        samples.push(i.wrapping_neg());
    }
    for i in samples {
        assert_eq!(double_from_int(i), (i as f64).to_bits(), "converting {}", i);
    }
}

#[test]
fn doubles_compare_as_the_machine_compares() {
    let samples = [
        0.0,
        -0.0,
        1.0,
        -1.0,
        1.5,
        -1.5,
        f64::MIN_POSITIVE,
        -f64::MIN_POSITIVE,
        5e-324,
        -5e-324,
        f64::MAX,
        f64::MIN,
        f64::INFINITY,
        f64::NEG_INFINITY,
        f64::NAN,
        -f64::NAN,
        f64::from_bits(0x7ff0_0000_0000_0001),
        f64::from_bits(0xfff8_0000_0000_0000),
        45.67,
        1.23e-4,
        1e300,
        -1e300,
    ];
    for a in samples {
        for b in samples {
            assert_eq!(double_less(a.to_bits(), b.to_bits()), a < b, "comparing {} and {}", a, b);
        }
    }
}
