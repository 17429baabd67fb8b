use point_sampler::codec::{decode, encode, Total32};

fn sample_bits() -> Vec<u32> {
    vec![
        0x0000_0000,
        0x8000_0000,
        0x0000_0001,
        0x8000_0001,
        0x007f_ffff,
        0x0080_0000,
        0x3f80_0000,
        0xbf80_0000,
        0x7f7f_ffff,
        0xff7f_ffff,
        0x7f80_0000,
        0xff80_0000,
        0x7f80_0001,
        0x7fc0_0000,
        0x7fff_ffff,
        0xff80_0001,
        0xffc0_0000,
        0xffff_ffff,
        0x1234_5678,
        0x9abc_def0,
    ]
}

#[test]
fn encode_known_values() {
    assert_eq!(encode(0x0000_0000), 0);
    assert_eq!(encode(0x8000_0000), -1);
    assert_eq!(encode(0x0000_0001), 1);
    assert_eq!(encode(0x8000_0001), -2);
    assert_eq!(encode(0x3f80_0000), 0x3f80_0000);
    assert_eq!(encode(0xbf80_0000), -1 - 0x3f80_0000);
    assert_eq!(encode(0x7fff_ffff), i32::MAX);
    assert_eq!(encode(0xffff_ffff), i32::MIN);
}

#[test]
fn decode_known_values() {
    assert_eq!(decode(0), 0x0000_0000);
    assert_eq!(decode(-1), 0x8000_0000);
    assert_eq!(decode(1), 0x0000_0001);
    assert_eq!(decode(-2), 0x8000_0001);
    assert_eq!(decode(i32::MAX), 0x7fff_ffff);
    assert_eq!(decode(i32::MIN), 0xffff_ffff);
}

#[test]
fn round_trip_is_bit_identical() {
    for bits in sample_bits() {
        assert_eq!(decode(encode(bits)), bits);
    }
    let specials = [
        0.0f32,
        -0.0,
        f32::INFINITY,
        f32::NEG_INFINITY,
        f32::NAN,
        f32::MIN_POSITIVE,
        f32::MAX,
        f32::MIN,
        f32::EPSILON,
        1.0,
        -1.0,
        0.1,
        -123.456,
    ];
    for f in specials {
        let back = f32::from_bits(decode(encode(f.to_bits())));
        assert_eq!(back.to_bits(), f.to_bits());
    }
}

#[test]
fn round_trip_over_a_stride_of_all_patterns() {
    let mut bits: u32 = 0;
    loop {
        assert_eq!(decode(encode(bits)), bits);
        match bits.checked_add(65_521) {
            Some(next) => bits = next,
            None => break,
        }
    }
}

#[test]
fn round_trip_from_coordinates() {
    for c in [i32::MIN, i32::MIN + 1, -2, -1, 0, 1, 2, 0x3f80_0000, i32::MAX - 1, i32::MAX] {
        assert_eq!(encode(decode(c)), c);
    }
}

#[test]
fn order_of_numbers_is_order_of_coordinates() {
    let ascending = [
        f32::NEG_INFINITY,
        f32::MIN,
        -1.0e10,
        -2.5,
        -1.0,
        -f32::MIN_POSITIVE,
        -1.0e-45,
        0.0,
        1.0e-45,
        f32::MIN_POSITIVE,
        0.1,
        1.0,
        1.5,
        100.0,
        f32::MAX,
        f32::INFINITY,
    ];
    for i in 0..ascending.len() {
        for j in 0..ascending.len() {
            let (a, b) = (ascending[i], ascending[j]);
            if a < b {
                assert!(encode(a.to_bits()) < encode(b.to_bits()), "{} < {}", a, b);
            }
        }
    }
}

#[test]
fn signed_zeros_are_adjacent() {
    assert_eq!(encode((-0.0f32).to_bits()) + 1, encode(0.0f32.to_bits()));
}

#[test]
fn nans_lie_outside_the_infinities() {
    assert!(encode(f32::INFINITY.to_bits()) < encode(0x7f80_0001));
    assert!(encode(0xff80_0001) < encode(f32::NEG_INFINITY.to_bits()));
}

#[test]
fn total32_converts_both_ways() {
    let t = Total32::from_bits(1.0f32.to_bits());
    assert_eq!(t, Total32(0x3f80_0000));
    assert_eq!(f32::from_bits(t.to_bits()), 1.0);
    let n = Total32::from_bits((-1.0f32).to_bits());
    assert_eq!(n.0, -1 - 0x3f80_0000);
    assert_eq!(f32::from_bits(n.to_bits()), -1.0);
    assert!(n < t);
}
