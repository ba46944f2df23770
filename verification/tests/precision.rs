use video_lab::precision::{
    parse_backend, require_dtype, require_ndarray_f32, require_trainable, Backend, Precision,
    PrecisionError, Support,
};
use video_lab::sampling::{weights_format, WeightsFormat};

#[test]
fn precisions_have_their_names() {
    assert_eq!(Precision::F32.name(), "f32");
    assert_eq!(Precision::F16.name(), "f16");
    assert_eq!(Precision::Bf16.name(), "bf16");
}

#[test]
fn half_precision_is_not_trained_in_by_accident() {
    assert!(require_trainable(Precision::F32, false).is_ok());
    assert!(require_trainable(Precision::Bf16, false).is_ok());
    assert!(require_trainable(Precision::F16, true).is_ok());
    let error = require_trainable(Precision::F16, false).unwrap_err();
    assert_eq!(error, PrecisionError::NotTrainable);
    let text = error.message("wgpu");
    assert!(text.starts_with("--precision f16 is not usable for training this student"));
    assert!(text.contains("hidden layer 0 \u{2014} see docs/PERF-ROUND-1.md)."));
    assert!(text.ends_with("pass --allow-f16-training to reproduce the failure."));
}

#[test]
fn ndarray_computes_in_single_precision_alone() {
    assert!(require_ndarray_f32(Precision::F32).is_ok());
    for p in [Precision::F16, Precision::Bf16] {
        let error = require_ndarray_f32(p).unwrap_err();
        assert_eq!(error, PrecisionError::NdArrayOnlySingle);
        assert!(error.message("ndarray").starts_with("--backend ndarray only supports --precision f32"));
    }
}

#[test]
fn the_device_decides_on_half_formats() {
    let none = Support { half: false, brain: false };
    let half = Support { half: true, brain: false };
    let both = Support { half: true, brain: true };
    for support in [none, half, both] {
        assert!(require_dtype(Precision::F32, support).is_ok());
        assert_eq!(require_dtype(Precision::F16, support).is_ok(), support.half);
        assert_eq!(require_dtype(Precision::Bf16, support).is_ok(), support.brain);
    }
    assert!(!Precision::F32.needs_probe());
    assert!(Precision::F16.needs_probe() && Precision::Bf16.needs_probe());
    let text = require_dtype(Precision::Bf16, half).unwrap_err().message("wgpu");
    assert!(text.starts_with(
        "--backend wgpu cannot compute in bf16 on this device; it supports f32 | f16. This is the device's own answer"
    ));
    let text = require_dtype(Precision::F16, none).unwrap_err().message("cuda");
    assert!(text.starts_with("--backend cuda cannot compute in f16 on this device; it supports f32. "));
    let brain = Support { half: false, brain: true };
    let text = require_dtype(Precision::F16, brain).unwrap_err().message("cuda");
    assert!(text.contains("it supports f32 | bf16. "));
}

#[test]
fn backends_go_by_name() {
    assert_eq!(parse_backend("ndarray"), Ok(Backend::NdArray));
    assert_eq!(parse_backend("wgpu"), Ok(Backend::Wgpu));
    assert_eq!(parse_backend("cuda"), Ok(Backend::Cuda));
    assert_eq!(parse_backend("tch"), Ok(Backend::Tch));
    assert_eq!(
        parse_backend("metal"),
        Err("unknown backend metal; use ndarray | wgpu | cuda | tch".to_string())
    );
}

#[test]
fn weights_go_by_extension() {
    assert_eq!(weights_format("mpk"), Ok(WeightsFormat::Mpk));
    assert_eq!(weights_format("bin"), Ok(WeightsFormat::Bin));
    assert_eq!(weights_format(""), Ok(WeightsFormat::Bin));
    assert_eq!(
        weights_format("safetensors"),
        Err("unknown weights format .safetensors; expected .bin or .mpk".to_string())
    );
}
