use safetensors::tensor::{Dtype, TensorView};
use video_lab::archive::{read_archive, ArchiveError};
use video_lab::cache::{unsupported_format_message, CacheCheck, ShardCache};
use video_lab::contract::{SpecError, StudentSpec};
use video_lab::rng::Lcg;
use video_lab::sampling::{fallback_prompt, read_prompt, reported_timestep, scored_shards, PromptError, SampleError, SamplePlan};
use video_lab::shard::{load_shard, validate_shard, Sample, ShardError};
use video_lab::synth::{shard_file, SynthError, SynthPlan, SynthRequest};
use video_lab::train::{conditioning, require_channels, require_shards, CacheMismatch};

fn tiny_spec() -> StudentSpec {
    StudentSpec {
        latent_channels: 2,
        text_width: 8,
        width: 16,
        layers: 2,
        heads: 2,
        mlp_ratio: 2,
        max_tokens: 256,
        patch_size: [1, 2, 2],
        per_block_conditioning: false,
    }
}

fn request(clips: usize, draws_per_clip: usize) -> SynthRequest {
    SynthRequest {
        clips,
        frames: 2,
        height: 4,
        width: 4,
        seq: 4,
        teacher_text_width: 12,
        relation_layers: 2,
        draws_per_clip,
    }
}

/// Two normal values of two uniform draws.
fn pair(first: u32, second: u32) -> (u32, u32) {
    let u = (first as f32 / 16_777_216.0).max(1e-7);
    let r = (-2.0 * u.ln()).sqrt();
    let a = 2.0 * std::f32::consts::PI * (second as f32 / 16_777_216.0);
    ((r * a.cos()).to_bits(), (r * a.sin()).to_bits())
}

fn narrow(value: u32) -> u16 {
    half::f16::from_f32(f32::from_bits(value)).to_bits()
}

/// The files of a synthetic cache.
fn synth(plan: &SynthPlan, seed: u32) -> Vec<Vec<u8>> {
    let mut rng = Lcg::new(seed);
    (0..plan.shard_count()).map(|i| plan.synth_shard(i, &mut rng, &pair, &narrow).unwrap()).collect()
}

fn same(a: &Sample, b: &Sample) -> bool {
    a.noisy == b.noisy
        && a.timestep == b.timestep
        && a.prompt == b.prompt
        && a.student_prompt == b.student_prompt
        && a.teacher_pred == b.teacher_pred
        && a.relations == b.relations
}

fn archive(tensors: Vec<(&str, Dtype, Vec<usize>, Vec<u8>)>) -> Vec<u8> {
    let views: Vec<(&str, TensorView)> = tensors
        .iter()
        .map(|(n, d, s, b)| (*n, TensorView::new(*d, s.clone(), b).unwrap()))
        .collect();
    safetensors::serialize(views, None).unwrap()
}

/// A shard of zeros in the given element type for the noisy latents.
fn small_shard(dtype: Dtype, noisy: Vec<u8>, shape: Vec<usize>) -> Vec<u8> {
    archive(vec![
        ("noisy_latents", dtype, shape, noisy),
        ("timestep", Dtype::I64, vec![1], 500i64.to_le_bytes().to_vec()),
        ("prompt_embeds", Dtype::F32, vec![1, 1, 2], vec![0; 8]),
        ("teacher_noise_pred", Dtype::F32, vec![1, 1, 1, 1, 2], vec![0; 8]),
    ])
}

#[test]
fn a_synthetic_shard_loads_as_it_was_drawn() {
    let plan = SynthPlan::new(&tiny_spec(), request(2, 1)).unwrap();
    assert!(plan.check_sizes());
    assert_eq!((plan.cells, plan.tokens), (32, 8));
    assert_eq!(plan.draw_counts(), vec![64, 48, 32, 64, 64, 64]);
    let draws = plan.draw_shard(&mut Lcg::new(3), &pair, &narrow);
    let bytes = plan.encode_shard(5, &draws).unwrap();
    assert!(validate_shard(&bytes).is_ok());
    let sample = load_shard(&bytes, &[0, 1]).unwrap();
    assert_eq!(sample.noisy, (draws.noisy.clone(), [1, 2, 2, 4, 4]));
    assert_eq!(sample.timestep, vec![685.0f32.to_bits()]);
    assert_eq!(sample.prompt, (draws.prompt.clone(), [1, 4, 12]));
    assert_eq!(sample.student_prompt, Some((draws.student_prompt.clone(), [1, 4, 8])));
    assert_eq!(sample.teacher_pred, (draws.teacher_pred.clone(), [1, 2, 2, 4, 4]));
    assert_eq!(sample.relations.len(), 2);
    for (read, drawn) in sample.relations.iter().zip(&draws.relations) {
        let wide: Vec<u32> = drawn.iter().map(|h| half::f16::from_bits(*h).to_f32().to_bits()).collect();
        assert_eq!(*read, (wide, [1, 8, 8]));
    }
    // Another order, and fewer layers, are what is asked for.
    let swapped = load_shard(&bytes, &[1]).unwrap();
    assert_eq!(swapped.relations, vec![sample.relations[1].clone()]);
    assert_eq!(conditioning(&sample).1, [1, 4, 8]);
    assert_eq!(reported_timestep(&sample), 685.0f32.to_bits());
}

#[test]
fn a_shard_is_drawn_tensor_after_tensor() {
    let plan = SynthPlan::new(&tiny_spec(), request(1, 1)).unwrap();
    let (raw, low) = (|u: u32, v: u32| (u, v), |x: u32| x as u16);
    let mut rng = Lcg::new(11);
    let draws = plan.draw_shard(&mut rng, &raw, &low);
    let mut twin = Lcg::new(11);
    let mut next = |n: usize| -> Vec<u32> { (0..n).map(|_| twin.next()).collect() };
    assert_eq!(draws.noisy, next(64));
    assert_eq!(draws.prompt, next(48));
    assert_eq!(draws.student_prompt, next(32));
    assert_eq!(draws.teacher_pred, next(64));
    for layer in &draws.relations {
        let wanted: Vec<u16> = next(64).into_iter().map(low).collect();
        assert_eq!(*layer, wanted);
    }
    assert_eq!(draws.relations.len(), 2);
    assert_eq!(rng, twin);
}

#[test]
fn equal_arguments_write_equal_caches() {
    let plan = SynthPlan::new(&tiny_spec(), request(2, 3)).unwrap();
    let other = SynthPlan::new(&tiny_spec(), request(2, 3)).unwrap();
    let files = synth(&plan, 5);
    assert_eq!(files, synth(&other, 5));
    assert_ne!(files, synth(&plan, 6));
    for (i, one) in files.iter().enumerate() {
        assert!(files[..i].iter().all(|earlier| earlier != one));
    }
    assert_eq!(plan.manifest().shards, other.manifest().shards);
}

#[test]
fn draws_per_clip_multiplies_shards() {
    let plan = SynthPlan::new(&tiny_spec(), request(3, 4)).unwrap();
    let manifest = plan.manifest();
    assert_eq!(manifest.shards.len(), 12, "3 clips × 4 draws = 12 shards");
    let files = synth(&plan, 7);
    let ts: Vec<Vec<u32>> = files
        .iter()
        .take(4)
        .map(|b| load_shard(b, &manifest.hidden_relation_layers).unwrap().timestep)
        .collect();
    assert!(ts.iter().any(|t| t != &ts[0]), "draws within reach must vary the timestep");
    let wanted: Vec<Vec<u32>> =
        [0f32, 137.0, 274.0, 411.0].iter().map(|t| vec![t.to_bits()]).collect();
    assert_eq!(ts, wanted);
}

#[test]
fn the_manifest_describes_its_shards() {
    let plan = SynthPlan::new(&tiny_spec(), request(2, 1)).unwrap();
    let manifest = plan.manifest();
    assert_eq!(manifest.format_version, 1);
    assert_eq!(manifest.teacher, "synthetic");
    assert_eq!(manifest.scheduler, "longlive");
    assert_eq!(manifest.shards, ["shard-000000.safetensors", "shard-000001.safetensors"]);
    assert_eq!(manifest.hidden_relation_layers, vec![0, 1]);
    let listed: Vec<(&str, &str, Vec<usize>)> = manifest
        .tensors
        .iter()
        .map(|t| (t.name.as_str(), t.dtype.as_str(), t.shape.clone()))
        .collect();
    assert_eq!(
        listed,
        vec![
            ("noisy_latents", "F32", vec![1, 2, 2, 4, 4]),
            ("timestep", "I64", vec![1]),
            ("prompt_embeds", "F32", vec![1, 4, 12]),
            ("student_prompt_embeds", "F32", vec![1, 4, 8]),
            ("teacher_noise_pred", "F32", vec![1, 2, 2, 4, 4]),
            ("teacher_relation.0", "F16", vec![1, 8, 8]),
            ("teacher_relation.1", "F16", vec![1, 8, 8]),
        ]
    );
    assert_eq!(shard_file(1_234_567), "shard-1234567.safetensors");
    for tensor in read_archive(&synth(&plan, 1)[1]).unwrap() {
        let entry = manifest.tensors.iter().find(|t| t.name == tensor.name).unwrap();
        assert_eq!((entry.dtype.clone(), entry.shape.clone()), (tensor.dtype, tensor.shape));
    }
}

#[test]
fn a_thousand_shards_have_a_thousand_timesteps() {
    let spec = StudentSpec { latent_channels: 0, text_width: 0, ..tiny_spec() };
    let bare = SynthRequest { relation_layers: 0, teacher_text_width: 0, ..request(1, 1000) };
    let plan = SynthPlan::new(&spec, bare).unwrap();
    assert!(plan.check_sizes());
    let mut seen = vec![false; 1000];
    for (i, bytes) in synth(&plan, 1).iter().enumerate() {
        let sample = load_shard(bytes, &[]).unwrap();
        let t = f32::from_bits(sample.timestep[0]) as usize;
        assert_eq!(t, i * 137 % 1000);
        assert!(!seen[t]);
        seen[t] = true;
    }
}

#[test]
fn synthetic_caches_are_refused_in_order() {
    let spec = tiny_spec();
    let uneven = StudentSpec { heads: 3, ..spec };
    let error = SynthPlan::new(&uneven, SynthRequest { height: 5, ..request(0, 0) }).unwrap_err();
    assert_eq!(error, SynthError::Spec(SpecError::UnevenHeads));
    let error = SynthPlan::new(&spec, SynthRequest { height: 5, ..request(0, 0) }).unwrap_err();
    assert_eq!(error.message(), "cache geometry 2x5x4 not divisible by patch_size 1x2x2");
    let error = SynthPlan::new(&spec, SynthRequest { frames: 17, ..request(0, 0) }).unwrap_err();
    assert_eq!(error.message(), "272 latent cells exceed spec.max_tokens=256");
    let error = SynthPlan::new(&spec, request(0, 0)).unwrap_err();
    assert_eq!(error.message(), "need at least one clip");
    let error = SynthPlan::new(&spec, request(1, 0)).unwrap_err();
    assert_eq!(error.message(), "need at least one draw per clip");
    let huge = StudentSpec { text_width: usize::MAX, ..spec };
    assert!(!SynthPlan::new(&huge, request(1, 1)).unwrap().check_sizes());
}

#[test]
fn shard_cache_evicts_and_reloads() {
    let plan = SynthPlan::new(&tiny_spec(), request(3, 1)).unwrap();
    let files = synth(&plan, 7);
    let manifest = plan.manifest();
    let layers = manifest.hidden_relation_layers.clone();
    let mut sc = ShardCache::new(manifest.shards.clone(), layers.clone(), 1);
    assert_eq!(sc.len(), 3);
    for idx in [0usize, 1, 2, 0] {
        let direct = load_shard(&files[idx], &layers).unwrap();
        assert_eq!(sc.file(idx), &manifest.shards[idx]);
        assert!(sc.get(idx).is_none());
        sc.hold(idx, &files[idx]).unwrap();
        let got = sc.get(idx).unwrap();
        assert_eq!(got.noisy.1, direct.noisy.1);
        assert_eq!(got.noisy.0, direct.noisy.0, "shard {idx} decoded differently after reload");
        assert!(same(got, &direct));
    }
    assert!(sc.resident_len() <= 1, "cap=1 must keep at most one shard resident, got {}", sc.resident_len());
}

#[test]
fn the_shard_decoded_first_leaves_first() {
    let plan = SynthPlan::new(&tiny_spec(), request(4, 1)).unwrap();
    let files = synth(&plan, 9);
    let mut sc = ShardCache::new(plan.manifest().shards, vec![], 2);
    sc.hold(2, &files[2]).unwrap();
    sc.hold(0, &files[0]).unwrap();
    assert!(sc.get(2).is_some());
    sc.hold(3, &files[3]).unwrap();
    assert!(sc.get(2).is_none() && sc.get(0).is_some() && sc.get(3).is_some());
    // A file that does not decode changes nothing.
    assert!(sc.hold(1, b"nothing").is_err());
    assert_eq!(sc.resident_len(), 2);
    assert!(sc.get(0).is_some() && sc.get(3).is_some() && sc.get(1).is_none());
    let mut none = ShardCache::new(plan.manifest().shards, vec![], 0);
    none.hold(1, &files[1]).unwrap();
    assert!(none.get(1).is_some());
}

#[test]
fn a_cache_is_accepted_file_by_file() {
    let plan = SynthPlan::new(&tiny_spec(), request(2, 1)).unwrap();
    let files = synth(&plan, 3);
    let manifest = plan.manifest();
    let mut check = CacheCheck::open(&manifest).unwrap();
    assert_eq!(check.pending(), Some(&manifest.shards[0]));
    check.accept(&files[0]).unwrap();
    assert_eq!(check.pending(), Some(&manifest.shards[1]));
    assert!(check.accept(&files[1][..20]).is_err());
    assert_eq!(check.pending(), Some(&manifest.shards[1]));
    check.accept(&files[1]).unwrap();
    assert_eq!(check.pending(), None);
    let mut other = plan.manifest();
    other.format_version = 2;
    assert!(CacheCheck::open(&other).is_none());
    assert_eq!(unsupported_format_message(), "unsupported teacher-cache format");
}

#[test]
fn required_tensors_are_missed_in_order() {
    let t = ("timestep", Dtype::I64, vec![1], vec![0; 8]);
    let p = ("prompt_embeds", Dtype::F32, vec![1, 1, 1], vec![0; 4]);
    let n = ("noisy_latents", Dtype::F32, vec![1, 1, 1, 1, 1], vec![0; 4]);
    let cases = [
        (archive(vec![]), "noisy_latents missing in x"),
        (archive(vec![n.clone()]), "timestep missing in x"),
        (archive(vec![n.clone(), t.clone()]), "prompt_embeds missing in x"),
        (archive(vec![n.clone(), t.clone(), p.clone()]), "teacher_noise_pred missing in x"),
    ];
    for (bytes, text) in cases {
        assert_eq!(validate_shard(&bytes).unwrap_err().message("x").unwrap(), text);
    }
    // Decoding asks for the prediction before the prompt and the timestep.
    let error = load_shard(&archive(vec![n]), &[]).unwrap_err();
    assert_eq!(error.message("a/b").unwrap(), "teacher_noise_pred missing in a/b");
}

#[test]
fn every_decoded_element_type_becomes_a_single() {
    let wanted = vec![1.5f32.to_bits(), (-2.0f32).to_bits()];
    let shape = vec![1, 1, 1, 1, 2];
    let singles: Vec<u8> = [1.5f32, -2.0].iter().flat_map(|x| x.to_le_bytes()).collect();
    let halves: Vec<u8> =
        [1.5f32, -2.0].iter().flat_map(|x| half::f16::from_f32(*x).to_le_bytes()).collect();
    let brains: Vec<u8> =
        [1.5f32, -2.0].iter().flat_map(|x| half::bf16::from_f32(*x).to_le_bytes()).collect();
    let longs: Vec<u8> = [16_777_217i64, -3].iter().flat_map(|x| x.to_le_bytes()).collect();
    for (dtype, bytes) in [(Dtype::F32, singles), (Dtype::F16, halves), (Dtype::BF16, brains)] {
        let sample = load_shard(&small_shard(dtype, bytes, shape.clone()), &[]).unwrap();
        assert_eq!(sample.noisy.0, wanted, "{dtype:?}");
    }
    let sample = load_shard(&small_shard(Dtype::I64, longs, shape.clone()), &[]).unwrap();
    assert_eq!(sample.noisy.0, vec![16_777_216f32.to_bits(), (-3f32).to_bits()]);
    assert!(sample.student_prompt.is_none());
    assert_eq!(conditioning(&sample).1, [1, 1, 2]);
    // A signalling NaN comes out quiet.
    let nan = vec![0x81, 0x7f, 0x81, 0xff];
    let sample = load_shard(&small_shard(Dtype::BF16, nan, shape), &[]).unwrap();
    assert_eq!(sample.noisy.0, vec![0x7fc1_0000, 0xffc1_0000]);
}

#[test]
fn other_element_types_and_ranks_are_refused() {
    let error = load_shard(&small_shard(Dtype::U8, vec![0; 2], vec![1, 1, 1, 1, 2]), &[]).unwrap_err();
    assert_eq!(error.message("x").unwrap(), "unsupported dtype U8");
    let error = load_shard(&small_shard(Dtype::F32, vec![0; 8], vec![1, 2]), &[]).unwrap_err();
    assert_eq!(error.message("x").unwrap(), "noisy_latents: expected rank 5, got shape [1, 2]");
    let error =
        load_shard(&small_shard(Dtype::F32, vec![0; 8], vec![1, 1, 1, 1, 2]), &[4]).unwrap_err();
    assert_eq!(error.message("x").unwrap(), "teacher_relation.4 missing in x");
}

#[test]
fn what_is_no_archive_is_refused() {
    for bytes in [&b""[..], b"short", b"\xff\xff\xff\xff\xff\xff\xff\xff", b"\x02\0\0\0\0\0\0\0[]"] {
        let error = load_shard(bytes, &[]).unwrap_err();
        assert!(matches!(error, ShardError::Archive(ArchiveError::Malformed(_))));
        assert!(error.message("x").is_none());
    }
    let mut cut = small_shard(Dtype::F32, vec![0; 8], vec![1, 1, 1, 1, 2]);
    cut.pop();
    assert!(validate_shard(&cut).is_err());
}

#[test]
fn a_header_that_overflows_is_refused() {
    // Fifteen tensors of 2^60 bytes and one of 2^60 - 1: the end of the archive is
    // past the address range.
    let mut header = String::from("{");
    for i in 0..16u64 {
        let start = i << 60;
        let size = if i == 15 { (1u64 << 60) - 1 } else { 1 << 60 };
        if i > 0 {
            header.push(',');
        }
        header.push_str(&format!(
            "\"t{i:02}\":{{\"dtype\":\"U8\",\"shape\":[{size}],\"data_offsets\":[{start},{}]}}",
            start + size
        ));
    }
    header.push('}');
    let mut bytes = (header.len() as u64).to_le_bytes().to_vec();
    bytes.extend(header.as_bytes());
    assert!(matches!(read_archive(&bytes), Err(ArchiveError::EndOverflow)));
}

#[test]
fn prompts_come_from_the_student_side_first() {
    let values = |n: usize, x: f32| -> Vec<u8> { (0..n).flat_map(|_| x.to_le_bytes()).collect() };
    let own = ("student_prompt_embeds", Dtype::F32, vec![1, 3, 2], values(6, 0.5));
    let teacher = ("prompt_embeds", Dtype::F32, vec![1, 4, 2], values(8, -1.0));
    let (prompt, seq) = read_prompt(&archive(vec![own.clone(), teacher.clone()]), 2).unwrap();
    assert_eq!((prompt, seq), (vec![0.5f32.to_bits(); 6], 3));
    let (prompt, seq) = read_prompt(&archive(vec![teacher.clone()]), 2).unwrap();
    assert_eq!((prompt, seq), (vec![(-1f32).to_bits(); 8], 4));
    let error = read_prompt(&archive(vec![own, teacher]), 5).unwrap_err();
    assert_eq!(
        error.message("x").unwrap(),
        "prompt embedding width 2 != spec.text_width 5 (wrong config for this cache?)"
    );
    let error = read_prompt(&archive(vec![]), 5).unwrap_err();
    assert_eq!(
        error.message("p.safetensors").unwrap(),
        "p.safetensors has neither student_prompt_embeds nor prompt_embeds"
    );
    let flat = ("prompt_embeds", Dtype::F32, vec![2], values(2, 0.0));
    assert!(matches!(read_prompt(&archive(vec![flat]), 2), Err(PromptError::Rank(_))));
    let bytes = ("prompt_embeds", Dtype::U8, vec![1, 2], vec![0; 2]);
    let error = read_prompt(&archive(vec![bytes]), 2).unwrap_err();
    assert_eq!(error.message("x").unwrap(), "unsupported dtype U8");
    assert!(matches!(read_prompt(b"", 2), Err(PromptError::Archive(_))));
}

#[test]
fn sampled_latents_are_written_and_read() {
    let spec = tiny_spec();
    let plan = SamplePlan::new(&spec, 2, 4, 6, 0).unwrap().unwrap();
    assert_eq!((plan.cells, plan.steps), (96, 1));
    let values: Vec<u32> = (0..96).map(|i| (i as f32 * 0.25).to_bits()).collect();
    let bytes = plan.encode(&values).unwrap();
    let tensors = read_archive(&bytes).unwrap();
    assert_eq!(tensors.len(), 1);
    assert_eq!(tensors[0].name, "latents");
    assert_eq!(tensors[0].dtype, "F32");
    assert_eq!(tensors[0].shape, vec![1, 2, 2, 4, 6]);
    let wanted: Vec<u8> = values.iter().flat_map(|v| v.to_le_bytes()).collect();
    assert_eq!(tensors[0].data, wanted);
    let error = SamplePlan::new(&spec, 2, 5, 6, 8).unwrap_err();
    assert_eq!(error.message(), "latent 5x6 not divisible by patch_size 2x2");
    let error = SamplePlan::new(&StudentSpec { layers: 0, ..spec }, 2, 5, 6, 8).unwrap_err();
    assert_eq!(error, SampleError::Spec(SpecError::Empty));
    assert_eq!(SamplePlan::new(&spec, usize::MAX, 4, 6, 8).unwrap(), None);
}

#[test]
fn fallback_prompts_have_their_own_stream() {
    let prompt = fallback_prompt(&tiny_spec(), 1);
    assert_eq!((prompt.seed, prompt.values, prompt.seq), (1 ^ 0x9e37_79b9, 64, 8));
}

#[test]
fn scoring_stops_at_its_limit() {
    assert_eq!(scored_shards(0, 12), 12);
    assert_eq!(scored_shards(5, 12), 5);
    assert_eq!(scored_shards(50, 12), 12);
    assert_eq!(scored_shards(3, 0), 0);
}

#[test]
fn caches_that_do_not_fit_the_student_are_refused() {
    assert!(require_shards(1).is_ok());
    assert_eq!(require_shards(0).unwrap_err().message(), "teacher cache has no shards");
    let plan = SynthPlan::new(&tiny_spec(), request(1, 1)).unwrap();
    let sample = load_shard(&synth(&plan, 1)[0], &[]).unwrap();
    assert!(require_channels(&tiny_spec(), &sample).is_ok());
    let other = StudentSpec { latent_channels: 16, ..tiny_spec() };
    let error = require_channels(&other, &sample).unwrap_err();
    assert_eq!(error, CacheMismatch::Channels { cache: 2, spec: 16 });
    assert_eq!(error.message(), "cache latent_channels=2 but spec expects 16");
}
