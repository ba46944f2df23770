use video_lab::contract::{default_patch, SpecError, StudentSpec, REQUIRED_SAMPLE_TENSORS};

fn browser_spec() -> StudentSpec {
    StudentSpec {
        latent_channels: 16,
        text_width: 4096,
        width: 1152,
        layers: 24,
        heads: 16,
        mlp_ratio: 4,
        max_tokens: 6144,
        patch_size: [1, 2, 2],
        per_block_conditioning: false,
    }
}

#[test]
fn estimates_browser_student() {
    let s = browser_spec();
    assert!(s.approximate_parameters() > 380_000_000);
    assert!(s.validate().is_ok());
}

#[test]
fn estimate_is_the_documented_sum() {
    let s = browser_spec();
    assert_eq!(s.dense_parameters(), 24 * 12 * 1152 * 1152);
    assert_eq!(s.patch_volume(), 4);
    assert_eq!(s.token_width(), Some(64));
    assert_eq!(StudentSpec { latent_channels: usize::MAX, ..s }.token_width(), None);
    assert_eq!(StudentSpec { patch_size: [1, usize::MAX, 2], ..s }.token_width(), None);
    assert_eq!(
        s.approximate_parameters(),
        24 * 12 * 1152 * 1152 + 4096 * 1152 + 2 * 16 * 4 * 1152
    );
}

#[test]
fn each_objection_has_its_message() {
    let s = browser_spec();
    let cases = [
        (
            StudentSpec { heads: 7, ..s },
            SpecError::UnevenHeads,
            "width must be divisible by heads",
        ),
        (
            StudentSpec { layers: 0, ..s },
            SpecError::Empty,
            "layers and max_tokens must be non-zero",
        ),
        (
            StudentSpec { max_tokens: 0, ..s },
            SpecError::Empty,
            "layers and max_tokens must be non-zero",
        ),
        (
            StudentSpec { patch_size: [1, 0, 2], ..s },
            SpecError::ZeroPatch,
            "patch_size entries must be non-zero",
        ),
        (
            StudentSpec { patch_size: [2, 2, 2], ..s },
            SpecError::TemporalPatch,
            "patch_size[0] (temporal) must be 1 in this release",
        ),
    ];
    for (spec, error, text) in cases {
        assert_eq!(spec.validate(), Err(error));
        assert_eq!(error.message(), text);
    }
}

#[test]
fn the_first_objection_wins() {
    let s = StudentSpec { heads: 7, layers: 0, patch_size: [0, 0, 0], ..browser_spec() };
    assert_eq!(s.validate(), Err(SpecError::UnevenHeads));
    let s = StudentSpec { layers: 0, patch_size: [0, 0, 0], ..browser_spec() };
    assert_eq!(s.validate(), Err(SpecError::Empty));
    let s = StudentSpec { patch_size: [0, 2, 2], ..browser_spec() };
    assert_eq!(s.validate(), Err(SpecError::ZeroPatch));
}

#[test]
fn defaults_and_required_tensors() {
    assert_eq!(default_patch(), [1, 2, 2]);
    assert_eq!(
        REQUIRED_SAMPLE_TENSORS,
        ["noisy_latents", "timestep", "prompt_embeds", "teacher_noise_pred"]
    );
}
