use video_lab::browser::{picture, BrowserModel, GenerateError};
use video_lab::contract::{SpecError, StudentSpec};
use video_lab::rng::Lcg;
use video_lab::train::{
    checkpoint_order, divergence_message, final_loss, fresh_state, resumed_state, summary, Artifact, Chunk, Opening,
    Phase, StepOutcome, TrainSettings, TrainState,
};

/// What a loop around a chunk leaves behind.
#[derive(Debug)]
struct Outcome {
    losses: Vec<u32>,
    state: TrainState,
    shards: Vec<usize>,
    logged: Vec<usize>,
    checkpoints: Vec<usize>,
}

/// Runs a chunk on the given loss of every step and the given clock.
fn run(
    settings: &TrainSettings,
    state: TrainState,
    shards: usize,
    loss: &dyn Fn(usize) -> f32,
    clock: &dyn Fn(usize) -> u64,
) -> Result<Outcome, (usize, usize)> {
    let mut chunk = match Chunk::begin(settings, state, shards) {
        Opening::Complete(state) => {
            return Ok(Outcome {
                losses: vec![],
                state,
                shards: vec![],
                logged: vec![],
                checkpoints: vec![],
            })
        }
        Opening::Run(chunk) => chunk,
    };
    let (mut order, mut logged, mut checkpoints) = (vec![], vec![], vec![]);
    while let Some(plan) = chunk.next() {
        order.push(plan.shard);
        let (log, outcome) = chunk.record(loss(plan.step).to_bits());
        if log {
            logged.push(plan.step);
        }
        match outcome {
            StepOutcome::Diverged { last_saved } => return Err((plan.step, last_saved)),
            StepOutcome::Kept { checkpoint } => {
                if checkpoint {
                    checkpoints.push(plan.step);
                    chunk.checkpointed();
                }
            }
        }
        chunk.tick(clock(plan.step));
    }
    assert_eq!(chunk.phase(), Phase::Over);
    let (losses, state) = chunk.finish(0);
    Ok(Outcome { losses, state, shards: order, logged, checkpoints })
}

fn falling(step: usize) -> f32 {
    1.0 / step as f32 + if step % 3 == 0 { 0.4 } else { 0.0 }
}

#[test]
fn resumed_chunks_match_a_single_run() {
    let base = || TrainSettings { log_every: 100, ..Default::default() };
    let whole = TrainSettings { steps: 20, target_steps: 20, ..base() };
    let one_shot = run(&whole, fresh_state(&whole), 3, &falling, &|_| 0).unwrap();

    let part = TrainSettings { steps: 10, target_steps: 20, ..base() };
    let first = run(&part, fresh_state(&part), 3, &falling, &|_| 0).unwrap();
    let s1 = &first.state;
    assert_eq!((s1.steps_done, s1.completed, s1.chunks), (10, false, 1));
    assert_eq!(s1.stopped_by, "chunk-steps");

    let second = run(&part, resumed_state(&part, first.state.clone()), 3, &falling, &|_| 0).unwrap();
    let s2 = &second.state;
    assert_eq!((s2.steps_done, s2.completed, s2.chunks, &*s2.stopped_by), (20, true, 2, "target"));

    let chunked: Vec<u32> = first.losses.iter().chain(&second.losses).copied().collect();
    assert_eq!(chunked, one_shot.losses);
    let shards: Vec<usize> = first.shards.iter().chain(&second.shards).copied().collect();
    assert_eq!(shards, one_shot.shards);
    assert_eq!(s2.best_loss, one_shot.state.best_loss);
    assert_eq!(s2.last_loss, one_shot.state.last_loss);

    // A further chunk past the target is a no-op.
    let extra = run(&part, resumed_state(&part, second.state.clone()), 3, &falling, &|_| 0).unwrap();
    assert!(extra.losses.is_empty());
    assert_eq!((extra.state.steps_done, extra.state.completed), (20, true));
    assert_eq!(extra.state.stopped_by, "target");
    assert_eq!(extra.state.chunks, 2);
}

#[test]
fn max_seconds_stops_early_but_checkpoints() {
    let settings = TrainSettings {
        steps: 100_000,
        target_steps: 100_000,
        max_seconds: 1,
        log_every: 100_000,
        ..Default::default()
    };
    let clock = |step: usize| (step / 40) as u64;
    let out = run(&settings, fresh_state(&settings), 2, &falling, &clock).unwrap();
    assert_eq!(out.state.stopped_by, "max-seconds");
    assert!(!out.state.completed);
    assert_eq!(out.state.steps_done, out.losses.len());
    assert!(out.state.steps_done < 100_000, "budget was ignored");
    assert_eq!(out.state.steps_done, 40);
    assert_eq!(out.state.chunks, 1);
    let names: Vec<&str> = checkpoint_order().iter().map(|f| f.file()).collect();
    assert_eq!(names, ["student.mpk", "student.bin", "optim.mpk", "state.json"]);
    assert_eq!(checkpoint_order()[3], Artifact::State);
}

#[test]
fn non_finite_loss_aborts_and_leaves_the_last_checkpoint_intact() {
    let settings = TrainSettings { steps: 50, log_every: 1, ckpt_every: 1, ..Default::default() };
    for bad in [f32::NAN, f32::INFINITY, f32::NEG_INFINITY] {
        let loss = move |step: usize| if step == 7 { bad } else { 1.0 };
        let (step, last_saved) = run(&settings, fresh_state(&settings), 2, &loss, &|_| 0).unwrap_err();
        assert_eq!((step, last_saved), (7, 6));
    }
    let coarse = TrainSettings { ckpt_every: 4, ..settings };
    let loss = |step: usize| if step == 7 { f32::NAN } else { 1.0 };
    assert_eq!(run(&coarse, fresh_state(&coarse), 2, &loss, &|_| 0).unwrap_err(), (7, 4));
    let never = TrainSettings { ckpt_every: 0, ..coarse };
    assert_eq!(run(&never, fresh_state(&never), 2, &loss, &|_| 0).unwrap_err(), (7, 0));
    let msg = divergence_message(7, "NaN", "0", "NaN", "run", 6, "1e30");
    assert!(msg.contains("non-finite"), "wrong failure mode: {msg}");
    assert!(msg.contains("2e-5"), "error should name the reference lr: {msg}");
    assert_eq!(
        msg,
        "loss became non-finite at step 7 (output=NaN, temporal=0, feature=NaN).\n\
         Weights from this step are unusable and were NOT saved; the checkpoint in run is from step 6.\n\
         Most likely the learning rate is too high — this run used 1e30, and \
         python/longlive_distill/configs/browser-384m-umt5.yaml specifies 2e-5."
    );
}

#[test]
fn every_step_is_recorded_and_some_are_logged() {
    let settings = TrainSettings { steps: 20, log_every: 5, ckpt_every: 10, ..Default::default() };
    let out = run(&settings, fresh_state(&settings), 2, &falling, &|_| u64::MAX).unwrap();
    assert_eq!(out.losses.len(), 20);
    assert_eq!(out.logged, vec![1, 5, 10, 15, 20]);
    assert_eq!(out.checkpoints, vec![10, 20]);
    assert_eq!(out.shards, (0..20).map(|i| i % 2).collect::<Vec<_>>());
    assert_eq!(out.state.stopped_by, "chunk-steps");
    assert!(!out.state.completed, "without a target a run is never complete");
    let best = (1..=20).map(falling).fold(f32::MAX, f32::min);
    assert_eq!(out.state.best_loss, best.to_bits());
    assert_eq!(out.state.last_loss, falling(20).to_bits());
    let quiet = TrainSettings { log_every: 0, ..settings };
    assert_eq!(run(&quiet, fresh_state(&quiet), 2, &falling, &|_| 0).unwrap().logged.len(), 20);
}

#[test]
fn defaults_are_the_documented_numbers() {
    let s = TrainSettings::default();
    assert_eq!(f64::from_bits(s.lr), 1e-4);
    assert_eq!(f32::from_bits(s.weight_decay), 0.01);
    assert_eq!(f32::from_bits(s.grad_clip), 1.0);
    assert_eq!(f32::from_bits(s.w_output), 1.0);
    assert_eq!(f32::from_bits(s.w_temporal), 0.25);
    assert_eq!(f32::from_bits(s.w_feature), 0.05);
    assert_eq!((s.steps, s.log_every, s.ckpt_every, s.seed), (100, 10, 0, 42));
    assert_eq!((s.max_seconds, s.target_steps, s.shard_cache), (0, 0, 128));
    assert!(s.resume.is_none());
    let state = fresh_state(&TrainSettings { target_steps: 9, ..s });
    assert_eq!(f32::from_bits(state.best_loss), f32::MAX);
    assert_eq!((state.steps_done, state.target_steps, state.chunks), (0, 9, 0));
    assert_eq!(state.stopped_by, "");
}

#[test]
fn a_resumed_run_keeps_its_target_unless_it_gets_another() {
    let old = fresh_state(&TrainSettings { target_steps: 30, ..Default::default() });
    let silent = TrainSettings::default();
    assert_eq!(resumed_state(&silent, old.clone()).target_steps, 30);
    let named = TrainSettings { target_steps: 40, ..Default::default() };
    let state = resumed_state(&named, TrainState { steps_done: 12, ..old });
    assert_eq!((state.target_steps, state.steps_done), (40, 12));
}

#[test]
fn a_chunk_is_summed_up_in_one_line() {
    let settings = TrainSettings { steps: 2, target_steps: 5, ..Default::default() };
    let out = run(&settings, fresh_state(&settings), 3, &falling, &|_| 0).unwrap();
    let loss = final_loss(&out.losses, &out.state);
    assert_eq!(f32::from_bits(loss), 0.5);
    assert_eq!(
        summary(2, &out.state, "0.500000", "runs/a"),
        "chunk done · 2 steps this chunk · 2/5 total · final loss 0.500000 · stopped by chunk-steps · resume for more · artifacts in runs/a"
    );
    let done = TrainState { completed: true, target_steps: 0, stopped_by: "target".into(), ..out.state };
    assert_eq!(
        summary(0, &done, "x", "y"),
        "chunk done · 0 steps this chunk · 2/- total · final loss x · stopped by target · COMPLETED · artifacts in y"
    );
    assert_eq!(final_loss(&[], &done), done.last_loss);
}

fn demo_spec() -> StudentSpec {
    StudentSpec {
        latent_channels: 4,
        text_width: 32,
        width: 64,
        layers: 2,
        heads: 4,
        mlp_ratio: 2,
        max_tokens: 256,
        patch_size: [1, 2, 2],
        per_block_conditioning: false,
    }
}

#[test]
fn a_browser_model_generates_once_it_is_prepared() {
    let mut model = BrowserModel::new(demo_spec()).unwrap();
    assert_eq!(model.backend(), "burn-wgpu");
    assert_eq!(model.parameters(), demo_spec().approximate_parameters());
    let error = model.generate(4, 16).unwrap_err();
    assert_eq!(error, GenerateError::NotPrepared);
    assert_eq!(error.message(), "call prepare() before generate()");
    model.prepare();
    let g = model.generate(0, 16).unwrap();
    assert_eq!((g.tokens, g.latent_values, g.prompt_values, g.seq, g.steps), (256, 1024, 256, 8, 1));
    assert_eq!(model.generate(7, 16).unwrap().steps, 7);
    let error = model.generate(4, 17).unwrap_err();
    assert_eq!(error.message(), "side=17 yields 289 tokens > spec.max_tokens=256");
    let bad = StudentSpec { heads: 5, ..demo_spec() };
    assert_eq!(BrowserModel::new(bad).unwrap_err(), SpecError::UnevenHeads);
}

#[test]
fn a_generation_is_drawn_from_its_seed_alone() {
    let mut model = BrowserModel::new(demo_spec()).unwrap();
    model.prepare();
    let g = model.generate(0, 3).unwrap();
    assert_eq!(g, model.generate(1, 3).unwrap());
    // Stands for the transform: the draws themselves.
    let raw = |u: u32, v: u32| (u, v);
    for seed in [0, 1, 77] {
        let (latent, prompt) = g.noise(seed, &raw);
        assert_eq!((latent.len(), prompt.len()), (g.latent_values, g.prompt_values));
        let mut rng = Lcg::with_seed(seed);
        assert!(latent.iter().chain(&prompt).all(|v| *v == rng.next()));
        assert_eq!(g.noise(seed, &raw), (latent, prompt));
    }
}

#[test]
fn pictures_are_opaque_and_fill_missing_channels() {
    let levels = [1u8, 2, 3, 4, 5, 6, 7, 8];
    assert_eq!(picture(&levels, 4, 2), vec![1, 3, 5, 255, 2, 4, 6, 255]);
    assert_eq!(picture(&levels[..2], 1, 2), vec![1, 127, 127, 255, 2, 127, 127, 255]);
    assert_eq!(picture(&[], 0, 1), vec![127, 127, 127, 255]);
    assert!(picture(&[], 3, 0).is_empty());
    // A value of zero is half bright.
    assert_eq!(((0.0f32 * 0.5 + 0.5).clamp(0.0, 1.0) * 255.0) as u8, 127);
}

#[test]
fn estimates_that_overflow_are_told_apart() {
    let spec = demo_spec();
    assert_eq!(spec.checked_parameters(), Some(spec.approximate_parameters()));
    assert_eq!(StudentSpec { width: usize::MAX, ..spec }.checked_parameters(), None);
    assert_eq!(StudentSpec { mlp_ratio: usize::MAX, width: 0, ..spec }.checked_parameters(), None);
    assert_eq!(spec.latent_tokens(4, 32, 48), 4 * 16 * 24);
    assert_eq!(spec.latent_tokens(1, 33, 3), 16);
}
