use montytrain::position::Position;
use montytrain::preparer::{DataPreparer, DecompressedData, PrepareError, PreparedData};

fn startpos() -> Position {
    Position {
        bbs: [
            0x0000_0000_0000_ffff,
            0xffff_0000_0000_0000,
            0x00ff_0000_0000_ff00,
            0x4200_0000_0000_0042,
            0x2400_0000_0000_0024,
            0x8100_0000_0000_0081,
            0x0800_0000_0000_0008,
            0x1000_0000_0000_0010,
        ],
        stm: 0,
    }
}

fn record(pos: Position, moves: &[(u16, u16)]) -> DecompressedData {
    let mut rec = DecompressedData { pos, moves: [(0, 0); 108], num: moves.len() };
    rec.moves[..moves.len()].copy_from_slice(moves);
    rec
}

fn raw_move(from: u16, to: u16) -> u16 {
    from | (to << 6)
}

#[test]
fn three_moves_normalize_to_distribution() {
    // Visit counts {5, 3, 2} over three legal moves.
    let moves = [(raw_move(12, 28), 5u16), (raw_move(12, 20), 3), (raw_move(6, 21), 2)];
    let rec = record(startpos(), &moves);
    let prep = PreparedData::new(&[rec], 1).unwrap();

    assert_eq!(prep.batch_size, 1);
    assert_eq!(prep.mask.value[0], (64 * 12 + 28) as i32);
    assert_eq!(prep.mask.value[1], (64 * 12 + 20) as i32);
    assert_eq!(prep.mask.value[2], (64 * 6 + 21) as i32);
    // Sentinel right after the three valid entries.
    assert_eq!(prep.mask.value[3], -1);
    assert_eq!(prep.dist.value[..3], [5, 3, 2]);
    assert_eq!(prep.dist.totals[0], 10);

    // Dividing by the total yields the normalized row {0.5, 0.3, 0.2}.
    let total = prep.dist.totals[0] as f32;
    let normalized: Vec<f32> = prep.dist.value[..3].iter().map(|&v| v as f32 / total).collect();
    assert_eq!(normalized, vec![0.5, 0.3, 0.2]);
}

#[test]
fn distribution_mass_is_one() {
    // Many moves with uneven visit counts still sum to 1 after
    // normalization.
    let moves: Vec<(u16, u16)> =
        (0..50u16).map(|i| (raw_move(i % 64, (i * 7 + 1) % 64), i * 13 + 1)).collect();
    let rec = record(startpos(), &moves);
    let prep = PreparedData::new(&[rec], 1).unwrap();
    let total = prep.dist.totals[0] as f32;
    let sum: f32 = prep.dist.value[..50].iter().map(|&v| v as f32 / total).sum();
    assert!((sum - 1.0).abs() <= 1e-6);
}

#[test]
fn empty_record_gets_leading_sentinel() {
    let rec = record(startpos(), &[]);
    let prep = PreparedData::new(&[rec], 1).unwrap();
    // The mask row begins with the sentinel; the distribution row is
    // left untouched (all zero) and its total is zero, the caller's
    // cue to ignore the row.
    assert_eq!(prep.mask.value[0], -1);
    assert!(prep.mask.value[1..108].iter().all(|&v| v == 0));
    assert!(prep.dist.value[..108].iter().all(|&v| v == 0));
    assert_eq!(prep.dist.totals[0], 0);
}

#[test]
fn full_record_has_no_sentinel() {
    let moves: Vec<(u16, u16)> =
        (0..108u16).map(|i| (raw_move(i % 64, (i / 64) * 8 + i % 8), 1)).collect();
    let rec = record(startpos(), &moves);
    let prep = PreparedData::new(&[rec], 1).unwrap();
    assert!(prep.mask.value[..108].iter().all(|&v| v >= 0));
    assert_eq!(prep.dist.totals[0], 108);
}

#[test]
fn feature_rows_are_padded_with_sentinels() {
    // A sparse position: two kings and one white pawn.
    let pos = Position {
        bbs: [
            (1u64 << 4) | (1u64 << 12),
            1u64 << 60,
            1u64 << 12,
            0,
            0,
            0,
            0,
            (1u64 << 4) | (1u64 << 60),
        ],
        stm: 0,
    };
    let rec = record(pos, &[(raw_move(12, 20), 1)]);
    let prep = PreparedData::new(&[rec], 1).unwrap();
    // Three active features per perspective, then -1 padding.
    assert!(prep.stm.value[..3].iter().all(|&v| (0..768).contains(&v)));
    assert!(prep.stm.value[3..32].iter().all(|&v| v == -1));
    assert!(prep.ntm.value[..3].iter().all(|&v| (0..768).contains(&v)));
    assert!(prep.ntm.value[3..32].iter().all(|&v| v == -1));
    assert_eq!(prep.stm.max_active, 32);
    assert_eq!(prep.ntm.max_active, 32);
    assert_eq!(prep.mask.max_active, 108);
}

#[test]
fn black_to_move_swaps_perspective_rows() {
    // The same sparse position once with white and once with black to
    // move: the side-to-move feature row of the one equals the
    // not-to-move row of the other.
    let pos_w = Position {
        bbs: [
            (1u64 << 4) | (1u64 << 12),
            1u64 << 60,
            1u64 << 12,
            0,
            0,
            0,
            0,
            (1u64 << 4) | (1u64 << 60),
        ],
        stm: 0,
    };
    let mut pos_b = pos_w;
    pos_b.stm = 1;
    let prep_w = PreparedData::new(&[record(pos_w, &[])], 1).unwrap();
    let prep_b = PreparedData::new(&[record(pos_b, &[])], 1).unwrap();
    assert_eq!(prep_w.stm.value, prep_b.ntm.value);
    assert_eq!(prep_w.ntm.value, prep_b.stm.value);
}

#[test]
fn batch_at_max_active_boundary() {
    // The starting position activates exactly 32 features, the row
    // boundary: preparation succeeds and no padding is written.
    let rec = record(startpos(), &[(raw_move(12, 28), 1)]);
    let prep = PreparedData::new(&[rec], 1).unwrap();
    assert!(prep.stm.value[..32].iter().all(|&v| (0..768).contains(&v)));
    assert!(prep.ntm.value[..32].iter().all(|&v| (0..768).contains(&v)));
}

#[test]
fn overfull_position_is_rejected() {
    // 33 white pawns cannot be a real position; the mapper would
    // overflow a feature row, which must surface as a hard failure.
    let pos = Position {
        bbs: [0x1_ffff_ffff, 0, 0x1_ffff_ffff, 0, 0, 0, 0, 0],
        stm: 0,
    };
    let rec = record(pos, &[]);
    assert_eq!(PreparedData::new(&[rec], 1).err(), Some(PrepareError::OutOfRangeIndex));
}

#[test]
fn failure_aborts_whole_batch() {
    let bad = Position { bbs: [0x1_ffff_ffff, 0, 0x1_ffff_ffff, 0, 0, 0, 0, 0], stm: 0 };
    let data = vec![record(startpos(), &[(raw_move(12, 28), 1)]), record(bad, &[])];
    assert!(PreparedData::new(&data, 1).is_err());
}

#[test]
fn worker_count_does_not_change_output() {
    let mut pos2 = startpos();
    pos2.stm = 1;
    let data = vec![
        record(startpos(), &[(raw_move(12, 28), 5), (raw_move(12, 20), 3)]),
        record(pos2, &[(raw_move(52, 36), 7)]),
        record(startpos(), &[]),
        record(pos2, &[(raw_move(62, 45), 1), (raw_move(62, 47), 2), (raw_move(52, 44), 3)]),
        record(startpos(), &[(raw_move(1, 18), 4)]),
    ];
    let whole = PreparedData::new(&data, 1).unwrap();
    for threads in 2..6usize {
        let again = PreparedData::new(&data, threads).unwrap();
        assert_eq!(whole.stm.value, again.stm.value);
        assert_eq!(whole.ntm.value, again.ntm.value);
        assert_eq!(whole.mask.value, again.mask.value);
        assert_eq!(whole.dist.value, again.dist.value);
        assert_eq!(whole.dist.totals, again.dist.totals);
    }
}

#[test]
fn chunked_assembly_matches_whole() {
    // Preparing disjoint chunks, as parallel workers do, and
    // concatenating their buffers reproduces the sequential result
    // byte for byte.
    let mut pos2 = startpos();
    pos2.stm = 1;
    let data = vec![
        record(startpos(), &[(raw_move(12, 28), 5), (raw_move(12, 20), 3)]),
        record(pos2, &[(raw_move(52, 36), 7)]),
        record(startpos(), &[]),
        record(pos2, &[(raw_move(62, 45), 1), (raw_move(62, 47), 2)]),
        record(startpos(), &[(raw_move(1, 18), 4)]),
    ];
    let whole = PreparedData::new(&data, 1).unwrap();
    for chunk_size in 1..=5usize {
        let mut stm = Vec::new();
        let mut ntm = Vec::new();
        let mut mask = Vec::new();
        let mut dist = Vec::new();
        let mut totals = Vec::new();
        for chunk in data.chunks(chunk_size) {
            let part = PreparedData::new(chunk, 1).unwrap();
            stm.extend_from_slice(&part.stm.value);
            ntm.extend_from_slice(&part.ntm.value);
            mask.extend_from_slice(&part.mask.value);
            dist.extend_from_slice(&part.dist.value);
            totals.extend_from_slice(&part.dist.totals);
        }
        assert_eq!(whole.stm.value, stm);
        assert_eq!(whole.ntm.value, ntm);
        assert_eq!(whole.mask.value, mask);
        assert_eq!(whole.dist.value, dist);
        assert_eq!(whole.dist.totals, totals);
    }
}

#[test]
fn preparer_remembers_configuration() {
    let prep = DataPreparer::new("data/games.binpack", 4096);
    assert_eq!(prep.path, "data/games.binpack");
    assert_eq!(prep.buffer_size_mb, 4096);
    let rec = record(startpos(), &[(raw_move(12, 28), 1)]);
    let batch = prep.prepare(&[rec], 2).unwrap();
    assert_eq!(batch.batch_size, 1);
}
