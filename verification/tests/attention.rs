use video_lab::attention::{
    attention_block, attention_tiles, HeadPlan, Modulation, DEFAULT_ATTENTION_BLOCK,
};

#[test]
fn the_last_tile_is_short() {
    assert_eq!(attention_tiles(16, 5), vec![(0, 5), (5, 10), (10, 15), (15, 16)]);
    assert_eq!(attention_tiles(10, 5), vec![(0, 5), (5, 10)]);
}

#[test]
fn few_rows_stay_in_one_tile() {
    assert_eq!(attention_tiles(16, usize::MAX), vec![(0, 16)]);
    assert_eq!(attention_tiles(16, 16), vec![(0, 16)]);
    assert_eq!(attention_tiles(16, 0), vec![(0, 16)]);
    assert_eq!(attention_tiles(0, 4), vec![(0, 0)]);
    assert_eq!(attention_tiles(1600, DEFAULT_ATTENTION_BLOCK), vec![(0, 1024), (1024, 1600)]);
}

#[test]
fn tiles_cover_every_row_once() {
    for seq in 1..60usize {
        for block in 0..20usize {
            let tiles = attention_tiles(seq, block);
            assert_eq!(tiles[0].0, 0);
            assert_eq!(tiles.last().unwrap().1, seq);
            for w in tiles.windows(2) {
                assert_eq!(w[0].1, w[1].0);
                assert!(w[0].1 - w[0].0 == block);
            }
        }
    }
}

#[test]
fn the_setting_is_a_positive_number_or_the_default() {
    assert_eq!(attention_block(None), 1024);
    assert_eq!(attention_block(Some("256")), 256);
    assert_eq!(attention_block(Some("  512\n")), 512);
    assert_eq!(attention_block(Some("0")), 1024);
    assert_eq!(attention_block(Some("-5")), 1024);
    assert_eq!(attention_block(Some("lots")), 1024);
    assert_eq!(attention_block(Some("")), 1024);
}

#[test]
fn heads_share_the_columns() {
    let plan = HeadPlan::new(2, 5, 1152, 16);
    assert_eq!(plan.dim, 72);
    assert_eq!(plan.split_shape(), [2, 5, 16, 72]);
    assert_eq!(plan.merged_shape(), [2, 5, 1152]);
    assert_eq!(HeadPlan::new(1, 4, 16, 1).dim, 16);
    assert_eq!(HeadPlan::new(1, 4, 16, 4).dim, 4);
}

#[test]
fn modulation_terms_follow_one_another() {
    let all = [
        Modulation::AttentionShift,
        Modulation::AttentionScale,
        Modulation::AttentionGate,
        Modulation::MlpShift,
        Modulation::MlpScale,
        Modulation::MlpGate,
    ];
    for (i, term) in all.iter().enumerate() {
        assert_eq!(term.range(), (i, i + 1));
    }
}
