use video_lab::ieee::{is_finite, is_less, peak, single_from_integer, widen_brain, widen_half};

fn interesting() -> Vec<f32> {
    vec![
        0.0,
        -0.0,
        1.0,
        -1.0,
        f32::MIN_POSITIVE,
        -f32::MIN_POSITIVE,
        1e-45,
        -1e-45,
        0.1,
        -0.7,
        65504.0,
        f32::MAX,
        f32::MIN,
        f32::INFINITY,
        f32::NEG_INFINITY,
        f32::NAN,
        -f32::NAN,
    ]
}

#[test]
fn finiteness_and_order_agree_with_the_hardware() {
    for a in interesting() {
        assert_eq!(is_finite(a.to_bits()), a.is_finite(), "{a}");
        for b in interesting() {
            assert_eq!(is_less(a.to_bits(), b.to_bits()), a < b, "{a} < {b}");
        }
    }
}

#[test]
fn every_bfloat_widens_as_the_half_crate_widens_it() {
    for bits in 0..=u16::MAX {
        let expected = half::bf16::from_bits(bits).to_f32().to_bits();
        assert_eq!(widen_brain(bits), expected, "{bits:#06x}");
    }
}

#[test]
fn every_half_widens_as_the_half_crate_widens_it() {
    for bits in 0..=u16::MAX {
        let expected = half::f16::from_bits(bits).to_f32().to_bits();
        assert_eq!(widen_half(bits), expected, "{bits:#06x}");
    }
}

#[test]
fn integers_convert_to_the_nearest_single() {
    let mut values = vec![0i64, 1, -1, 137, 863, 999, 1_000_003, i64::MAX, i64::MIN, i64::MIN + 1];
    for shift in 0..63 {
        for offset in -3i64..=3 {
            let n = (1i64 << shift).wrapping_add(offset);
            values.push(n);
            values.push(n.wrapping_neg());
        }
    }
    // Halfway cases on both sides of an even significand.
    for n in [16_777_217i64, 16_777_219, 33_554_434, 33_554_438, 0x7fff_ffbf_ffff_ffff] {
        values.push(n);
        values.push(-n);
    }
    for n in values {
        assert_eq!(single_from_integer(n), (n as f32).to_bits(), "{n}");
    }
}

#[test]
fn the_peak_is_the_fold_of_absolute_values() {
    let lists: [&[f32]; 5] = [
        &[],
        &[f32::NAN],
        &[-0.0, 0.0],
        &[0.25, -3.5, 1.0, f32::NAN, 3.25],
        &[1.0, f32::NEG_INFINITY],
    ];
    for list in lists {
        let bits: Vec<u32> = list.iter().map(|x| x.to_bits()).collect();
        let expected = list.iter().fold(0f32, |m, x| m.max(x.abs()));
        assert_eq!(peak(&bits), expected.to_bits(), "{list:?}");
    }
}
