use std::collections::HashSet;
use video_lab::bytes::{half_bytes, push_le, read_le, single_bytes};
use video_lab::rng::Lcg;
use video_lab::synth::shard_file;
use video_lab::train::{fresh_state, Chunk, Opening, TrainSettings};

#[test]
fn integers_are_read_as_they_are_written() {
    for n in [0u64, 1, 255, 256, 0xdead_beef, u64::MAX] {
        let mut bytes = vec![7u8];
        push_le(&mut bytes, n, 8);
        assert_eq!(bytes[1..], n.to_le_bytes());
        assert_eq!(read_le(&bytes, 1, 8), n);
        let mut low = Vec::new();
        push_le(&mut low, n, 2);
        assert_eq!(read_le(&low, 0, 2), n % 65_536);
        assert!(low.len() == 2);
    }
    assert_eq!(read_le(&[1, 2, 3], 1, 0), 0);
}

#[test]
fn bytes_are_written_as_they_are_read() {
    let bytes = [9u8, 8, 7, 6, 5, 4];
    for width in 0..=6usize {
        let mut again = Vec::new();
        push_le(&mut again, read_le(&bytes, 0, width), width);
        assert_eq!(again, bytes[..width]);
    }
}

#[test]
fn values_keep_their_order() {
    let singles = [1.5f32, -0.0, f32::MAX, 1e-40];
    let patterns: Vec<u32> = singles.iter().map(|x| x.to_bits()).collect();
    let wanted: Vec<u8> = singles.iter().flat_map(|x| x.to_le_bytes()).collect();
    assert_eq!(single_bytes(&patterns), wanted);
    assert_eq!(half_bytes(&[0x3c00, 0xabcd]), vec![0x00, 0x3c, 0xcd, 0xab]);
    assert!(single_bytes(&[]).is_empty() && half_bytes(&[]).is_empty());
}

#[test]
fn shard_names_differ() {
    let names: HashSet<String> =
        [0usize, 1, 10, 999_999, 1_000_000, 10_000_000].iter().map(|i| shard_file(*i)).collect();
    assert_eq!(names.len(), 6);
}

#[test]
fn a_stream_can_be_cut_anywhere() {
    let mut whole = Lcg::new(42);
    let all: Vec<u32> = (0..20).map(|_| whole.next()).collect();
    let mut parts = Lcg::new(42);
    let first: Vec<u32> = (0..7).map(|_| parts.next()).collect();
    let mut rest = Lcg::with_seed(parts.state);
    let second: Vec<u32> = (0..13).map(|_| rest.next()).collect();
    assert_eq!([first, second].concat(), all);
}

#[test]
fn every_shard_comes_up_in_turn() {
    let settings = TrainSettings { steps: 5, ..Default::default() };
    for done in 0..12usize {
        let mut state = fresh_state(&settings);
        state.steps_done = done;
        let mut chunk = match Chunk::begin(&settings, state, 5) {
            Opening::Run(chunk) => chunk,
            Opening::Complete(_) => panic!("five steps are to be run"),
        };
        let mut seen = HashSet::new();
        while let Some(plan) = chunk.next() {
            assert_eq!(plan.shard, (plan.step - 1) % 5);
            seen.insert(plan.shard);
            chunk.record(0x3f80_0000);
            chunk.tick(0);
        }
        assert_eq!(seen.len(), 5);
    }
}
