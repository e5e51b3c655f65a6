//! The move indexer: a compact move and the side to move become the
//! move's slot in the policy-output space.

use crate::position::Position;
use vstd::prelude::*;

verus! {

/// Width of the move-index space: one slot per from/to square pair.
pub const NUM_MOVES: usize = 4096;

/// Largest number of distinct moves one record may carry.
pub const MAX_MOVES: usize = 108;

/// A compact move: bits 0 to 5 the from square, bits 6 to 11 the to
/// square, the top four bits free for flags the indexer ignores.
#[derive(Clone, Copy, PartialEq, Eq, Structural, Debug)]
pub struct Move {
    pub raw: u16,
}

impl Move {
    /// The from square, in white's numbering.
    pub fn src(&self) -> (s: u16)
        ensures
            s == self.raw & 63,
    {
        self.raw & 63
    }

    /// The to square, in white's numbering.
    pub fn dst(&self) -> (d: u16)
        ensures
            d == (self.raw >> 6) & 63,
    {
        (self.raw >> 6) & 63
    }
}

/// The policy-output slot of a move seen by the side to move: the
/// from and to squares, rank-mirrored when black moves, combined as
/// `from * 64 + to`.
pub open spec fn move_index(stm: int, raw: u16) -> int {
    let f = if stm == 1 {
        (raw & 63) ^ 56
    } else {
        (raw & 63)
    };
    let t = if stm == 1 {
        ((raw >> 6) & 63) ^ 56
    } else {
        ((raw >> 6) & 63)
    };
    64 * f + t
}

/// Maps a move of `pos` to its policy-output slot. The slot is a pure
/// function of the side to move and the move's squares, and always
/// lies in `[0, NUM_MOVES)`.
pub fn map_move_to_index(pos: &Position, mov: Move) -> (idx: usize)
    requires
        pos.wf(),
    ensures
        idx == move_index(pos.stm as int, mov.raw),
        idx < 4096,
{
    let mut from = mov.raw & 63;
    let mut to = (mov.raw >> 6) & 63;
    if pos.stm() == 1 {
        from = from ^ 56;
        to = to ^ 56;
    }
    proof {
        let r = mov.raw;
        assert((r & 63) < 64 && ((r >> 6) & 63) < 64 && ((r & 63) ^ 56) < 64 && (((r >> 6) & 63)
            ^ 56) < 64) by (bit_vector);
    }
    64 * (from as usize) + (to as usize)
}

/// Reconstructs from a policy-output slot the move it stands for, in
/// white's numbering, with no flag bits set. Inverse of the indexer
/// for the same side to move; meant for boundary-time diagnostics.
pub fn move_from_index(stm: usize, idx: usize) -> (mov: Move)
    requires
        stm == 0 || stm == 1,
        idx < 4096,
    ensures
        move_index(stm as int, mov.raw) == idx,
        mov.raw >> 12 == 0,
{
    let mut from = (idx / 64) as u16;
    let mut to = (idx % 64) as u16;
    if stm == 1 {
        from = from ^ 56;
        to = to ^ 56;
    }
    let raw: u16 = from | (to << 6);
    proof {
        let fi = (idx / 64) as u16;
        let ti = (idx % 64) as u16;
        if stm == 1 {
            assert(fi < 64 && ti < 64 ==> {
                let r = (fi ^ 56) | ((ti ^ 56) << 6);
                &&& (r & 63) == (fi ^ 56)
                &&& ((r >> 6) & 63) == (ti ^ 56)
                &&& ((r & 63) ^ 56) == fi
                &&& (((r >> 6) & 63) ^ 56) == ti
                &&& r >> 12 == 0
            }) by (bit_vector);
        } else {
            assert(fi < 64 && ti < 64 ==> {
                let r = fi | (ti << 6);
                &&& (r & 63) == fi
                &&& ((r >> 6) & 63) == ti
                &&& r >> 12 == 0
            }) by (bit_vector);
        }
        assert(64 * (idx / 64) + idx % 64 == idx);
    }
    Move { raw }
}

/// Every move's slot lies inside the move-index space.
pub proof fn lemma_move_index_range(stm: int, raw: u16)
    requires
        stm == 0 || stm == 1,
    ensures
        0 <= move_index(stm, raw) < 4096,
{
    assert(64 * ((raw & 63) ^ 56) + (((raw >> 6) & 63) ^ 56) < 4096 && 64 * (raw & 63) + ((raw
        >> 6) & 63) < 4096) by (bit_vector);
}

/// Distinct from/to pairs get distinct slots: for one side to move
/// the indexer is injective on moves without flag bits.
pub proof fn lemma_move_index_injective(stm: int, a: u16, b: u16)
    requires
        stm == 0 || stm == 1,
        a >> 12 == 0,
        b >> 12 == 0,
        move_index(stm, a) == move_index(stm, b),
    ensures
        a == b,
{
    if stm == 1 {
        assert((a >> 12 == 0 && b >> 12 == 0 && 64 * ((a & 63) ^ 56) + (((a >> 6) & 63) ^ 56) == 64
            * ((b & 63) ^ 56) + (((b >> 6) & 63) ^ 56)) ==> a == b) by (bit_vector);
    } else {
        assert((a >> 12 == 0 && b >> 12 == 0 && 64 * (a & 63) + ((a >> 6) & 63) == 64 * (b & 63) + (
        (b >> 6) & 63)) ==> a == b) by (bit_vector);
    }
}

} // verus!
