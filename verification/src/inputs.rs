//! The feature mapper: a position and a perspective become the list
//! of active input-feature indices of the policy network.

use crate::bits::{
    bit64, feat_squares, lemma_count_mirror, lemma_feat_squares_bounds, lemma_feat_squares_len,
    lemma_mirror_and, lemma_mirror_involution, mirror, mirror_board,
};
use crate::position::{piece_total, piece_total_upto, Position};
use vstd::prelude::*;

verus! {

/// Width of the input-feature space: 2 ownerships x 6 piece types x
/// 64 squares.
pub const INPUT_SIZE: usize = 768;

/// Largest number of active features a sample row may carry.
pub const MAX_ACTIVE: usize = 32;

/// A perspective's orientation: black sees every board rank-mirrored.
pub open spec fn oriented(bb: u64, side: int) -> u64 {
    if side == 1 {
        mirror(bb)
    } else {
        bb
    }
}

/// Board of the perspective's own pieces of type `piece`, oriented.
pub open spec fn own_board(pos: Position, side: int, piece: int) -> u64 {
    oriented(pos.bbs@[piece] & pos.bbs@[side], side)
}

/// Board of the perspective's opponent pieces of type `piece`,
/// oriented.
pub open spec fn opp_board(pos: Position, side: int, piece: int) -> u64 {
    oriented(pos.bbs@[piece] & pos.bbs@[1 - side], side)
}

/// Feature indices one piece type contributes, own squares first at
/// offset `64 * (piece - 2)`, opponent squares after at 384 above it.
pub open spec fn piece_feats(pos: Position, side: int, piece: int) -> Seq<int> {
    feat_squares(own_board(pos, side, piece), 64 * (piece - 2), 64) + feat_squares(
        opp_board(pos, side, piece),
        384 + 64 * (piece - 2),
        64,
    )
}

pub open spec fn policy_inputs_upto(pos: Position, side: int, p: int) -> Seq<int>
    decreases p,
{
    if p <= 2 {
        Seq::empty()
    } else {
        policy_inputs_upto(pos, side, p - 1) + piece_feats(pos, side, p - 1)
    }
}

/// Every active feature index of `pos` seen from `side`, in the order
/// the mapper emits them: piece types in canonical order, own squares
/// before opponent squares, squares ascending.
pub open spec fn policy_inputs(pos: Position, side: int) -> Seq<int> {
    policy_inputs_upto(pos, side, 8)
}

/// Mathematical view of a feature vector.
pub open spec fn to_ints(s: Seq<usize>) -> Seq<int> {
    s.map_values(|x: usize| x as int)
}

proof fn lemma_to_ints_push(s: Seq<usize>, v: usize)
    ensures
        to_ints(s.push(v)) == to_ints(s).push(v as int),
{
    assert(to_ints(s.push(v)) =~= to_ints(s).push(v as int));
}

/// Appends the squares of `bb`, each offset by `off`, in ascending
/// order.
fn push_squares(feats: &mut Vec<usize>, bb: u64, off: usize)
    requires
        off <= 704,
    ensures
        to_ints(final(feats)@) == to_ints(old(feats)@) + feat_squares(bb, off as int, 64),
{
    let ghost orig = feats@;
    for sq in 0..64usize
        invariant
            off <= 704,
            to_ints(feats@) == to_ints(orig) + feat_squares(bb, off as int, sq as int),
    {
        let ghost pre = feats@;
        let ghost part = feat_squares(bb, off as int, sq as int);
        if (bb >> (sq as u64)) & 1 == 1 {
            feats.push(off + sq);
            proof {
                assert(bit64(bb, sq as u64));
                assert(feat_squares(bb, off as int, sq + 1) == part.push(off + sq as int));
                lemma_to_ints_push(pre, (off + sq) as usize);
                assert((to_ints(orig) + part).push((off + sq) as int) =~= to_ints(orig)
                    + part.push(off + sq as int));
            }
        } else {
            proof {
                assert(!bit64(bb, sq as u64));
                assert(feat_squares(bb, off as int, sq + 1) == part);
            }
        }
    }
}

/// Maps a position and a perspective to its active feature indices.
/// The result is a pure function of the boards and the perspective:
/// two calls on the same arguments yield the same vector.
pub fn map_policy_inputs(pos: &Position, side: usize) -> (feats: Vec<usize>)
    requires
        side == 0 || side == 1,
    ensures
        to_ints(feats@) == policy_inputs(*pos, side as int),
{
    let mut feats: Vec<usize> = Vec::new();
    proof {
        assert(to_ints(feats@) =~= policy_inputs_upto(*pos, side as int, 2));
    }
    for piece in 2..8usize
        invariant
            side == 0 || side == 1,
            to_ints(feats@) == policy_inputs_upto(*pos, side as int, piece as int),
    {
        let pc = 64 * (piece - 2);
        let mut our_bb = pos.bbs[piece] & pos.bbs[side];
        let mut opp_bb = pos.bbs[piece] & pos.bbs[1 - side];
        if side == 1 {
            our_bb = mirror_board(our_bb);
            opp_bb = mirror_board(opp_bb);
        }
        assert(our_bb == own_board(*pos, side as int, piece as int));
        assert(opp_bb == opp_board(*pos, side as int, piece as int));
        push_squares(&mut feats, our_bb, pc);
        push_squares(&mut feats, opp_bb, 384 + pc);
        proof {
            assert(to_ints(feats@) =~= policy_inputs_upto(*pos, side as int, piece + 1));
        }
    }
    feats
}

proof fn lemma_upto_in_range(pos: Position, side: int, p: int)
    requires
        p <= 8,
    ensures
        forall|k: int|
            0 <= k < policy_inputs_upto(pos, side, p).len() ==> 0 <= #[trigger] policy_inputs_upto(
                pos,
                side,
                p,
            )[k] < 768,
    decreases p,
{
    if p > 2 {
        lemma_upto_in_range(pos, side, p - 1);
        let prev = policy_inputs_upto(pos, side, p - 1);
        let own = feat_squares(own_board(pos, side, p - 1), 64 * (p - 3), 64);
        let opp = feat_squares(opp_board(pos, side, p - 1), 384 + 64 * (p - 3), 64);
        lemma_feat_squares_bounds(own_board(pos, side, p - 1), 64 * (p - 3), 64);
        lemma_feat_squares_bounds(opp_board(pos, side, p - 1), 384 + 64 * (p - 3), 64);
        let cur = policy_inputs_upto(pos, side, p);
        assert forall|k: int| 0 <= k < cur.len() implies 0 <= #[trigger] cur[k] < 768 by {
            if k < prev.len() {
                assert(cur[k] == prev[k]);
            } else if k < prev.len() + own.len() {
                assert(cur[k] == own[k - prev.len()]);
            } else {
                assert(cur[k] == opp[k - prev.len() - own.len()]);
            }
        }
    }
}

proof fn lemma_upto_len(pos: Position, side: int, p: int)
    requires
        side == 0 || side == 1,
    ensures
        policy_inputs_upto(pos, side, p).len() == piece_total_upto(pos, p),
    decreases p,
{
    if p > 2 {
        lemma_upto_len(pos, side, p - 1);
        let board = pos.bbs@[p - 1];
        lemma_feat_squares_len(own_board(pos, side, p - 1), 64 * (p - 3), 64);
        lemma_feat_squares_len(opp_board(pos, side, p - 1), 384 + 64 * (p - 3), 64);
        if side == 1 {
            lemma_count_mirror(board & pos.bbs@[1]);
            lemma_count_mirror(board & pos.bbs@[0]);
        }
    }
}

/// Both perspectives see one feature per piece occurrence: the length
/// of the feature list does not depend on the perspective.
pub proof fn lemma_policy_inputs_len(pos: Position, side: int)
    requires
        side == 0 || side == 1,
    ensures
        policy_inputs(pos, side).len() == piece_total(pos),
{
    lemma_upto_len(pos, side, 8);
}

/// The two perspectives of one position always yield equally many
/// features, so a count mismatch between them cannot arise.
pub proof fn lemma_perspective_counts_agree(pos: Position)
    ensures
        policy_inputs(pos, 0).len() == policy_inputs(pos, 1).len(),
{
    lemma_policy_inputs_len(pos, 0);
    lemma_policy_inputs_len(pos, 1);
}

/// For every position and either perspective, every feature index
/// lies in `[0, INPUT_SIZE)`, and when the boards carry at most 32
/// piece occurrences the mapper yields at most MAX_ACTIVE features.
pub proof fn lemma_feature_mapper_bounds(pos: Position, side: int)
    requires
        side == 0 || side == 1,
    ensures
        forall|k: int|
            0 <= k < policy_inputs(pos, side).len() ==> 0 <= #[trigger] policy_inputs(
                pos,
                side,
            )[k] < 768,
        piece_total(pos) <= 32 ==> policy_inputs(pos, side).len() <= 32,
{
    lemma_upto_in_range(pos, side, 8);
    lemma_policy_inputs_len(pos, side);
}

/// The feature mapper's and the move indexer's mirroring conventions
/// agree: for the black perspective the board orientation moves each
/// square `sq` to `sq ^ 56`, exactly the transformation the move
/// indexer applies to a move's from and to squares, and the white
/// perspective leaves boards as they are.
pub proof fn lemma_orientation_conventions_agree(bb: u64, sq: u64)
    requires
        sq < 64,
    ensures
        bit64(oriented(bb, 1), sq ^ 56) == bit64(bb, sq),
        oriented(bb, 0) == bb,
{
    assert(sq < 64 ==> (bit64(mirror(bb), sq ^ 56) == bit64(bb, sq))) by (bit_vector);
}

proof fn lemma_swap_upto(p: Position, q: Position, side: int, n: int)
    requires
        side == 0 || side == 1,
        n <= 8,
        q.bbs@[0] == mirror(p.bbs@[1]),
        q.bbs@[1] == mirror(p.bbs@[0]),
        forall|i: int| 2 <= i < 8 ==> q.bbs@[i] == mirror(p.bbs@[i]),
    ensures
        policy_inputs_upto(q, side, n) == policy_inputs_upto(p, 1 - side, n),
    decreases n,
{
    if n > 2 {
        lemma_swap_upto(p, q, side, n - 1);
        let pc = n - 1;
        if side == 0 {
            lemma_mirror_and(p.bbs@[pc], p.bbs@[1]);
            lemma_mirror_and(p.bbs@[pc], p.bbs@[0]);
            assert(own_board(q, 0, pc) == own_board(p, 1, pc));
            assert(opp_board(q, 0, pc) == opp_board(p, 1, pc));
        } else {
            lemma_mirror_and(p.bbs@[pc], p.bbs@[0]);
            lemma_mirror_and(p.bbs@[pc], p.bbs@[1]);
            lemma_mirror_involution(p.bbs@[pc] & p.bbs@[0]);
            lemma_mirror_involution(p.bbs@[pc] & p.bbs@[1]);
            assert(own_board(q, 1, pc) == own_board(p, 0, pc));
            assert(opp_board(q, 1, pc) == opp_board(p, 0, pc));
        }
    }
}

/// Mirror symmetry: exchanging the colours of a position (every board
/// rank-mirrored, the two side boards swapped) turns each
/// perspective's feature list into the other perspective's list of
/// the original position.
pub proof fn lemma_mirror_symmetry(p: Position, q: Position, side: int)
    requires
        side == 0 || side == 1,
        q.bbs@[0] == mirror(p.bbs@[1]),
        q.bbs@[1] == mirror(p.bbs@[0]),
        forall|i: int| 2 <= i < 8 ==> q.bbs@[i] == mirror(p.bbs@[i]),
    ensures
        policy_inputs(q, side) == policy_inputs(p, 1 - side),
{
    lemma_swap_upto(p, q, side, 8);
}

} // verus!
