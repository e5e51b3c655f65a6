//! The position model: occupancy bitboards plus the side to move.

use crate::bits::{mirror, mirror_board, popcount};
use vstd::prelude::*;

verus! {

/// A chess position. Boards 0 and 1 hold every piece of white and of
/// black; boards 2 through 7 hold both sides' pawns, knights,
/// bishops, rooks, queens and kings. Bit `sq` of a board marks square
/// `sq`, counted file-first from white's corner.
#[derive(Clone, Copy)]
pub struct Position {
    pub bbs: [u64; 8],
    pub stm: usize,
}

impl Position {
    /// The side to move is white (0) or black (1).
    pub open spec fn wf(self) -> bool {
        self.stm == 0 || self.stm == 1
    }

    /// Occupancy board of side or piece type `idx`.
    pub fn piece(&self, idx: usize) -> (bb: u64)
        requires
            idx < 8,
        ensures
            bb == self.bbs@[idx as int],
    {
        self.bbs[idx]
    }

    /// The side to move.
    pub fn stm(&self) -> (s: usize)
        ensures
            s == self.stm,
    {
        self.stm
    }
}

/// Piece occurrences the boards up to type `p` show on either side's
/// occupancy.
pub open spec fn piece_total_upto(pos: Position, p: int) -> int
    decreases p,
{
    if p <= 2 {
        0
    } else {
        piece_total_upto(pos, p - 1) + popcount(pos.bbs@[p - 1] & pos.bbs@[0]) + popcount(
            pos.bbs@[p - 1] & pos.bbs@[1],
        )
    }
}

/// Total number of piece occurrences the six piece boards show on
/// either side's occupancy. A legal position never exceeds 32.
pub open spec fn piece_total(pos: Position) -> int {
    piece_total_upto(pos, 8)
}

/// The same position with the colours exchanged: every board is
/// rank-mirrored and the two side boards swap places, so the side to
/// move now owns what was the other colour's army.
pub fn color_swapped(pos: &Position) -> (r: Position)
    ensures
        r.stm == pos.stm,
        r.bbs@[0] == mirror(pos.bbs@[1]),
        r.bbs@[1] == mirror(pos.bbs@[0]),
        forall|p: int| 2 <= p < 8 ==> r.bbs@[p] == mirror(pos.bbs@[p]),
{
    Position {
        bbs: [
            mirror_board(pos.bbs[1]),
            mirror_board(pos.bbs[0]),
            mirror_board(pos.bbs[2]),
            mirror_board(pos.bbs[3]),
            mirror_board(pos.bbs[4]),
            mirror_board(pos.bbs[5]),
            mirror_board(pos.bbs[6]),
            mirror_board(pos.bbs[7]),
        ],
        stm: pos.stm,
    }
}

} // verus!
