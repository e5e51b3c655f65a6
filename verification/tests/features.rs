use montytrain::bits::mirror_board;
use montytrain::inputs::map_policy_inputs;
use montytrain::moves::{map_move_to_index, move_from_index, Move};
use montytrain::position::{color_swapped, Position};

fn startpos() -> Position {
    Position {
        bbs: [
            0x0000_0000_0000_ffff, // white
            0xffff_0000_0000_0000, // black
            0x00ff_0000_0000_ff00, // pawns
            0x4200_0000_0000_0042, // knights
            0x2400_0000_0000_0024, // bishops
            0x8100_0000_0000_0081, // rooks
            0x0800_0000_0000_0008, // queens
            0x1000_0000_0000_0010, // kings
        ],
        stm: 0,
    }
}

#[test]
fn mirror_board_moves_ranks() {
    assert_eq!(mirror_board(0x0000_0000_0000_00ff), 0xff00_0000_0000_0000);
    assert_eq!(mirror_board(1), 1u64 << 56);
    assert_eq!(mirror_board(1u64 << 12), 1u64 << 52);
    assert_eq!(mirror_board(mirror_board(0x1234_5678_9abc_def0)), 0x1234_5678_9abc_def0);
}

#[test]
fn startpos_feature_list_white() {
    let pos = startpos();
    let feats = map_policy_inputs(&pos, 0);
    let expected: Vec<usize> = vec![
        // pawns: own a2..h2, then opponent a7..h7
        8, 9, 10, 11, 12, 13, 14, 15, 432, 433, 434, 435, 436, 437, 438, 439,
        // knights
        65, 70, 505, 510, // bishops
        130, 133, 570, 573, // rooks
        192, 199, 632, 639, // queens
        259, 699, // kings
        324, 764,
    ];
    assert_eq!(feats, expected);
}

#[test]
fn startpos_feature_counts() {
    let pos = startpos();
    for side in 0..2usize {
        let feats = map_policy_inputs(&pos, side);
        assert_eq!(feats.len(), 32);
        assert!(feats.iter().all(|&f| f < 768));
        assert_eq!(feats.iter().filter(|&&f| f < 384).count(), 16);
        assert_eq!(feats.iter().filter(|&&f| f >= 384).count(), 16);
    }
}

#[test]
fn startpos_is_colour_symmetric() {
    let pos = startpos();
    assert_eq!(map_policy_inputs(&pos, 0), map_policy_inputs(&pos, 1));
}

#[test]
fn feature_mapper_is_deterministic() {
    let pos = startpos();
    assert_eq!(map_policy_inputs(&pos, 0), map_policy_inputs(&pos, 0));
    assert_eq!(map_policy_inputs(&pos, 1), map_policy_inputs(&pos, 1));
}

#[test]
fn colour_swap_exchanges_perspectives() {
    // An asymmetric position: white king e1, white pawn e2, black
    // king e8.
    let pos = Position {
        bbs: [
            (1u64 << 4) | (1u64 << 12),
            1u64 << 60,
            1u64 << 12,
            0,
            0,
            0,
            0,
            (1u64 << 4) | (1u64 << 60),
        ],
        stm: 0,
    };
    let swapped = color_swapped(&pos);
    assert_eq!(map_policy_inputs(&swapped, 0), map_policy_inputs(&pos, 1));
    assert_eq!(map_policy_inputs(&swapped, 1), map_policy_inputs(&pos, 0));
}

fn sparse_pos(stm: usize) -> Position {
    // White king e1 (square 4), white pawn e2 (square 12), black king
    // e8 (square 60).
    Position {
        bbs: [
            (1u64 << 4) | (1u64 << 12),
            1u64 << 60,
            1u64 << 12,
            0,
            0,
            0,
            0,
            (1u64 << 4) | (1u64 << 60),
        ],
        stm,
    }
}

#[test]
fn sparse_position_exact_features_both_perspectives() {
    let pos = sparse_pos(0);
    // White's view: own pawn e2 -> 12, own king e1 -> 320 + 4,
    // opponent king e8 -> 384 + 320 + 60.
    assert_eq!(map_policy_inputs(&pos, 0), vec![12, 324, 764]);
    // Black's view mirrors every square by rank: the white pawn sits
    // on e7 (square 52) of the opponent's pawn block, each king on
    // the mirrored square of its block.
    assert_eq!(map_policy_inputs(&pos, 1), vec![436, 324, 764]);
}

#[test]
fn move_index_white() {
    let pos = startpos();
    // e2e4: from square 12, to square 28.
    let mov = Move { raw: 12 | (28 << 6) };
    assert_eq!(mov.src(), 12);
    assert_eq!(mov.dst(), 28);
    assert_eq!(map_move_to_index(&pos, mov), 64 * 12 + 28);
}

#[test]
fn move_index_black_mirrors() {
    let mut pos = startpos();
    pos.stm = 1;
    // e7e5: from square 52, to square 36; black sees 52 ^ 56 = 12 and
    // 36 ^ 56 = 28.
    let mov = Move { raw: 52 | (36 << 6) };
    assert_eq!(map_move_to_index(&pos, mov), 64 * 12 + 28);
}

#[test]
fn move_index_ignores_flag_bits() {
    let pos = startpos();
    let plain = Move { raw: 12 | (28 << 6) };
    let flagged = Move { raw: 12 | (28 << 6) | (0b1010 << 12) };
    assert_eq!(map_move_to_index(&pos, plain), map_move_to_index(&pos, flagged));
}

#[test]
fn move_round_trip() {
    for stm in 0..2usize {
        for &(from, to) in &[(0u16, 63u16), (12, 28), (52, 36), (7, 56), (33, 41)] {
            let raw = from | (to << 6);
            let pos = Position { bbs: [0; 8], stm };
            let idx = map_move_to_index(&pos, Move { raw });
            assert!(idx < 4096);
            let back = move_from_index(stm, idx);
            assert_eq!(back.raw, raw);
            assert_eq!(map_move_to_index(&pos, back), idx);
        }
    }
}
