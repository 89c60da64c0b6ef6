use pin_logger::encoding::{binary_string, pin_levels};

fn decode(levels: &[bool]) -> usize {
    let mut v = 0usize;
    for (i, high) in levels.iter().enumerate() {
        if *high {
            v |= 1 << i;
        }
    }
    v
}

#[test]
fn digits_are_least_significant_first() {
    assert_eq!(&binary_string::<3>(5), b"101");
    assert_eq!(&binary_string::<4>(6), b"0110");
    assert_eq!(&binary_string::<4>(1), b"1000");
    assert_eq!(&binary_string::<2>(0), b"00");
    assert_eq!(&binary_string::<0>(7), b"");
}

#[test]
fn digits_keep_only_lowest_bits() {
    assert_eq!(&binary_string::<2>(7), b"11");
    assert_eq!(&binary_string::<3>(8), b"000");
}

#[test]
fn levels_follow_bits() {
    assert_eq!(pin_levels::<3>(5), [true, false, true]);
    assert_eq!(pin_levels::<4>(6), [false, true, true, false]);
    assert_eq!(pin_levels::<3>(0), [false, false, false]);
}

#[test]
fn pins_beyond_usize_width_stay_low() {
    let levels = pin_levels::<70>(usize::MAX);
    let digits = binary_string::<70>(usize::MAX);
    for i in 0..70 {
        let expected = i < usize::BITS as usize;
        assert_eq!(levels[i], expected);
        assert_eq!(digits[i], if expected { b'1' } else { b'0' });
    }
}

#[test]
fn levels_read_back_give_the_state() {
    for state in 0..16usize {
        assert_eq!(decode(&pin_levels::<4>(state)), state);
    }
}

#[test]
fn distinct_states_show_distinct_levels() {
    for a in 0..8usize {
        for b in 0..8usize {
            if a != b {
                assert_ne!(pin_levels::<3>(a), pin_levels::<3>(b));
            }
        }
    }
}

#[test]
fn extra_pins_stay_low_for_registry_states() {
    // Three names need two pins; a fourth and fifth pin stay low.
    for state in 0..=3usize {
        let levels = pin_levels::<5>(state);
        assert!(!levels[2] && !levels[3] && !levels[4]);
    }
}

#[test]
fn digits_show_levels() {
    for state in 0..32usize {
        let levels = pin_levels::<5>(state);
        let digits = binary_string::<5>(state);
        for i in 0..5 {
            assert_eq!(digits[i], if levels[i] { b'1' } else { b'0' });
        }
    }
}
