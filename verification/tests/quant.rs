use video_lab::ieee::peak;
use video_lab::quant::{
    bits_message, blob_file, check_bits, dequantize_module, dequantize_values, is_loadable, quantize_module,
    quantize_values, LevelTensor, Parameter, QTensor,
};
use video_lab::rng::Lcg;

/// Scale and rounded levels of one tensor, as a producer of bundles forms them.
fn levels(values: &[f32], bits: u8) -> (f32, Vec<i32>) {
    let patterns: Vec<u32> = values.iter().map(|x| x.to_bits()).collect();
    let qmax = if bits == 8 { 127.0 } else { 7.0 };
    let scale = (f32::from_bits(peak(&patterns)) / qmax).max(1e-12);
    (scale, values.iter().map(|x| (x / scale).round() as i32).collect())
}

fn weights(rng: &mut Lcg, n: usize) -> Vec<f32> {
    (0..n).map(|_| rng.next() as f32 / 8_388_608.0 - 1.0).collect()
}

fn bundle(model: &[(Vec<usize>, Vec<f32>)], bits: u8) -> (Vec<u8>, Vec<QTensor>) {
    let tensors: Vec<LevelTensor> = model
        .iter()
        .map(|(shape, values)| {
            let (scale, levels) = levels(values, bits);
            LevelTensor { shape: shape.clone(), scale: scale.to_bits(), levels }
        })
        .collect();
    quantize_module(&tensors, bits)
}

/// A model of the given shapes, whose weights are all `weights`.
fn model_of<W: Clone>(shapes: &[Vec<usize>], weights: W) -> Vec<Parameter<W>> {
    shapes.iter().map(|s| Parameter { shape: s.clone(), weights: weights.clone() }).collect()
}

fn restore(blob: &Vec<u8>, index: &Vec<QTensor>) -> Vec<Vec<f32>> {
    let shapes: Vec<Vec<usize>> = index.iter().map(|e| e.shape.clone()).collect();
    let model = model_of(&shapes, 0.25f32);
    assert!(is_loadable(&model, index, blob));
    dequantize_module(&model, index, blob)
        .iter()
        .map(|t| t.levels.iter().map(|l| *l as f32 * f32::from_bits(t.scale)).collect())
        .collect()
}

fn distance(a: &[(Vec<usize>, Vec<f32>)], b: &[Vec<f32>]) -> f32 {
    let mut sum = 0f32;
    let mut n = 0;
    for ((_, x), y) in a.iter().zip(b) {
        for (p, q) in x.iter().zip(y) {
            sum += (p - q).abs();
            n += 1;
        }
    }
    sum / n as f32
}

#[test]
fn quantized_bundle_reconstructs_the_model() {
    // Two sets of random weights of the same shapes: what is restored has to be
    // the first, far closer than the second is.
    let shapes = [vec![8usize, 16], vec![16], vec![4, 16], vec![16, 32], vec![32], vec![32, 16]];
    let make = |seed: u32| -> Vec<(Vec<usize>, Vec<f32>)> {
        let mut rng = Lcg::new(seed);
        shapes.iter().map(|s| (s.clone(), weights(&mut rng, s.iter().product()))).collect()
    };
    let trained = make(11);
    let other: Vec<Vec<f32>> = make(999).into_iter().map(|t| t.1).collect();
    let baseline_err = distance(&trained, &other);
    assert!(baseline_err > 0.0);
    let mut err = Vec::new();
    for bits in [8u8, 4] {
        let (blob, index) = bundle(&trained, bits);
        let e = distance(&trained, &restore(&blob, &index));
        assert!(e < 0.2 * baseline_err, "q{bits} did not reconstruct: err {e} vs baseline {baseline_err}");
        err.push(e);
    }
    assert!(err[0] <= err[1] + 1e-6, "int8 should be at least as accurate as int4");
    let (b8, _) = bundle(&trained, 8);
    let (b4, _) = bundle(&trained, 4);
    assert!(b4.len() <= b8.len() / 2 + 1, "int4 blob should be ~half int8 ({} vs {})", b4.len(), b8.len());
}

#[test]
fn eight_bit_levels_are_bytes() {
    assert_eq!(
        quantize_values(&[0, 1, -1, 127, -127, 128, -128, 1000, -1000], 8),
        vec![0, 1, 255, 127, 129, 127, 129, 127, 129]
    );
}

#[test]
fn four_bit_levels_are_nibbles_low_one_first() {
    assert_eq!(quantize_values(&[0, 1], 4), vec![0x98]);
    assert_eq!(quantize_values(&[-7, 7], 4), vec![0xf1]);
    assert_eq!(quantize_values(&[-9, 9], 4), vec![0xf1]);
    assert_eq!(quantize_values(&[3], 4), vec![0x8b]);
    assert!(quantize_values(&[], 4).is_empty());
}

#[test]
fn unpacking_gives_the_clamped_levels() {
    let source: Vec<i32> = (-140..=140).collect();
    for (bits, top) in [(8u8, 127), (4, 7)] {
        for n in [0usize, 1, 2, 3, 280, 281] {
            let packed = quantize_values(&source[..n], bits);
            let entry = QTensor {
                name: String::new(),
                shape: vec![n],
                scale: 0,
                offset: 0,
                length: n as u64,
                bits,
            };
            let back: Vec<i32> = dequantize_values(&entry, &packed).iter().map(|l| *l as i32).collect();
            let wanted: Vec<i32> = source[..n].iter().map(|l| (*l).clamp(-top, top)).collect();
            assert_eq!(back, wanted);
        }
    }
}

#[test]
fn entries_follow_one_another() {
    let model: Vec<(Vec<usize>, Vec<f32>)> =
        [3usize, 4, 1, 0, 5].iter().map(|n| (vec![*n], vec![1.0; *n])).collect();
    let (blob, index) = bundle(&model, 4);
    let offsets: Vec<u64> = index.iter().map(|e| e.offset).collect();
    assert_eq!(offsets, vec![0, 2, 4, 5, 5]);
    assert_eq!(blob.len(), 8);
    let names: Vec<&str> = index.iter().map(|e| e.name.as_str()).collect();
    assert_eq!(names, ["p0000", "p0001", "p0002", "p0003", "p0004"]);
    assert_eq!(index[1].shape, vec![4]);
    assert!(index.iter().all(|e| e.bits == 4));
    assert_eq!(index[4].length, 5);
}

#[test]
fn four_bits_take_half_up_to_half_a_byte_each() {
    let mut rng = Lcg::new(5);
    for lengths in [vec![1usize, 1, 1], vec![2, 4, 6], vec![7, 8, 9, 10]] {
        let model: Vec<(Vec<usize>, Vec<f32>)> =
            lengths.iter().map(|n| (vec![*n], weights(&mut rng, *n))).collect();
        let (b8, _) = bundle(&model, 8);
        let (b4, _) = bundle(&model, 4);
        assert!(b8.len() <= 2 * b4.len());
        assert!(2 * b4.len() <= b8.len() + model.len());
    }
}

#[test]
fn an_index_beyond_its_blob_is_not_loaded() {
    let entry = |offset: u64, length: u64, bits: u8| QTensor {
        name: String::new(),
        shape: vec![],
        scale: 0,
        offset,
        length,
        bits,
    };
    let blob = vec![0u8; 4];
    let model = |n: usize| model_of(&[vec![n]], ());
    assert!(is_loadable(&model(4), &vec![entry(0, 4, 8)], &blob));
    assert!(is_loadable(&model(8), &vec![entry(0, 8, 4)], &blob));
    assert!(!is_loadable(&model(4), &vec![entry(1, 4, 8)], &blob));
    assert!(!is_loadable(&model(9), &vec![entry(0, 9, 4)], &blob));
    assert!(!is_loadable(&model(1), &vec![entry(u64::MAX, 1, 8)], &blob));
    assert!(!is_loadable(&model(usize::MAX), &vec![entry(0, u64::MAX, 4)], &blob));
    // An entry that no parameter takes is not looked at.
    assert!(is_loadable(&model(1), &vec![entry(0, 1, 8), entry(9, 9, 8)], &blob));
    assert!(!is_loadable(&model_of(&[vec![1], vec![1]], ()), &vec![entry(0, 1, 8)], &blob));
}

#[test]
fn an_entry_holds_the_values_of_its_parameter() {
    let entry = |length: u64| {
        vec![QTensor { name: String::new(), shape: vec![], scale: 0, offset: 0, length, bits: 8 }]
    };
    let blob = vec![0u8; 64];
    let fits = |shape: &[usize], length: u64| is_loadable(&model_of(&[shape.to_vec()], ()), &entry(length), &blob);
    assert!(fits(&[2, 3, 4], 24) && !fits(&[2, 3, 4], 23) && !fits(&[2, 3, 4], 25));
    assert!(fits(&[], 1) && !fits(&[], 0));
    assert!(fits(&[7, 0], 0) && fits(&[usize::MAX, 2, 0], 0) && !fits(&[0, 5], 5));
    assert!(!fits(&[1 << 40, 1 << 40], 0) && !fits(&[1 << 32, 1 << 32], 0));
}

#[test]
fn weights_and_names_leave_no_trace() {
    let shapes = [vec![3usize, 2], vec![5], vec![]];
    let mut rng = Lcg::new(9);
    let trained: Vec<(Vec<usize>, Vec<f32>)> =
        shapes.iter().map(|s| (s.clone(), weights(&mut rng, s.iter().product()))).collect();
    for bits in [4, 8] {
        let (blob, index) = bundle(&trained, bits);
        let mut renamed = index.clone();
        for e in &mut renamed {
            e.name = format!("other {}", e.name);
        }
        let one = dequantize_module(&model_of(&shapes, 1.5f32), &index, &blob);
        let other = dequantize_module(&model_of(&shapes, "unused"), &renamed, &blob);
        for ((a, b), (shape, values)) in one.iter().zip(&other).zip(&trained) {
            assert_eq!((&a.shape, a.scale, &a.levels), (&b.shape, b.scale, &b.levels));
            assert_eq!(&a.shape, shape);
            let (scale, wanted) = levels(values, bits);
            assert_eq!(a.scale, scale.to_bits());
            let found: Vec<i32> = a.levels.iter().map(|l| *l as i32).collect();
            assert_eq!(found, wanted);
        }
        assert_eq!((one.len(), other.len()), (3, 3));
    }
}

#[test]
fn bundles_have_four_or_eight_bits() {
    assert!(check_bits(4) && check_bits(8));
    assert!(!check_bits(0) && !check_bits(5) && !check_bits(16));
    assert_eq!(bits_message(), "bits must be 4 or 8");
    assert_eq!(blob_file(8), "weights.q8");
    assert_eq!(blob_file(4), "weights.q4");
}
