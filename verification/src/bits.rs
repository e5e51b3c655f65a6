//! Bitboard primitives: bit tests, population counts, the ascending
//! list of set squares, and the vertical (rank) mirror.

use vstd::prelude::*;

verus! {

/// True when bit `sq` of `bb` is set.
pub open spec fn bit64(bb: u64, sq: u64) -> bool {
    (bb >> sq) & 1 == 1
}

/// Number of set bits of `bb` among positions `[0, n)`.
pub open spec fn count_upto(bb: u64, n: int) -> int
    decreases n,
{
    if n <= 0 {
        0
    } else {
        count_upto(bb, n - 1) + if bit64(bb, (n - 1) as u64) {
            1int
        } else {
            0int
        }
    }
}

/// Number of set bits of a 64-bit board.
pub open spec fn popcount(bb: u64) -> int {
    count_upto(bb, 64)
}

/// The set squares of `bb` below `n`, in ascending order, each offset
/// by `off`.
pub open spec fn feat_squares(bb: u64, off: int, n: int) -> Seq<int>
    decreases n,
{
    if n <= 0 {
        Seq::empty()
    } else if bit64(bb, (n - 1) as u64) {
        feat_squares(bb, off, n - 1).push(off + n - 1)
    } else {
        feat_squares(bb, off, n - 1)
    }
}

/// Vertical mirror of a board: byte `i` moves to byte `7 - i`, so each
/// square `sq` moves to `sq ^ 56`.
pub open spec fn mirror(bb: u64) -> u64 {
    ((bb & 0xff) << 56) | ((bb & 0xff00) << 40) | ((bb & 0xff_0000) << 24) | ((bb & 0xff00_0000)
        << 8) | ((bb >> 8) & 0xff00_0000) | ((bb >> 24) & 0xff_0000) | ((bb >> 40) & 0xff00) | (bb
        >> 56)
}

/// Rank-mirrors a board in executable code.
pub fn mirror_board(bb: u64) -> (r: u64)
    ensures
        r == mirror(bb),
{
    ((bb & 0xff) << 56) | ((bb & 0xff00) << 40) | ((bb & 0xff_0000) << 24) | ((bb & 0xff00_0000)
        << 8) | ((bb >> 8) & 0xff00_0000) | ((bb >> 24) & 0xff_0000) | ((bb >> 40) & 0xff00) | (bb
        >> 56)
}

/// Mirroring twice restores the board.
pub proof fn lemma_mirror_involution(bb: u64)
    ensures
        mirror(mirror(bb)) == bb,
{
    assert(mirror(mirror(bb)) == bb) by (bit_vector);
}

/// Mirroring distributes over intersection.
pub proof fn lemma_mirror_and(a: u64, b: u64)
    ensures
        mirror(a & b) == mirror(a) & mirror(b),
{
    assert(mirror(a & b) == mirror(a) & mirror(b)) by (bit_vector);
}

/// Number of set bits among the low eight bits of `b`.
pub open spec fn byte_sum(b: u64) -> int {
    ((b >> 0) & 1) + ((b >> 1) & 1) + ((b >> 2) & 1) + ((b >> 3) & 1) + ((b >> 4) & 1) + ((b >> 5)
        & 1) + ((b >> 6) & 1) + ((b >> 7) & 1)
}

/// Counting up to a byte boundary splits off the top byte.
proof fn lemma_count_block(bb: u64, n: int)
    requires
        8 <= n <= 64,
    ensures
        count_upto(bb, n) == count_upto(bb, n - 8) + byte_sum((bb >> ((n - 8) as u64)) & 0xff),
{
    let s = (n - 8) as u64;
    assert(count_upto(bb, n) == count_upto(bb, n - 1) + if bit64(bb, (n - 1) as u64) {
        1int
    } else {
        0int
    });
    assert(count_upto(bb, n - 1) == count_upto(bb, n - 2) + if bit64(bb, (n - 2) as u64) {
        1int
    } else {
        0int
    });
    assert(count_upto(bb, n - 2) == count_upto(bb, n - 3) + if bit64(bb, (n - 3) as u64) {
        1int
    } else {
        0int
    });
    assert(count_upto(bb, n - 3) == count_upto(bb, n - 4) + if bit64(bb, (n - 4) as u64) {
        1int
    } else {
        0int
    });
    assert(count_upto(bb, n - 4) == count_upto(bb, n - 5) + if bit64(bb, (n - 5) as u64) {
        1int
    } else {
        0int
    });
    assert(count_upto(bb, n - 5) == count_upto(bb, n - 6) + if bit64(bb, (n - 6) as u64) {
        1int
    } else {
        0int
    });
    assert(count_upto(bb, n - 6) == count_upto(bb, n - 7) + if bit64(bb, (n - 7) as u64) {
        1int
    } else {
        0int
    });
    assert(count_upto(bb, n - 7) == count_upto(bb, n - 8) + if bit64(bb, (n - 8) as u64) {
        1int
    } else {
        0int
    });
    assert(forall|j: u64|
        j < 8 ==> ((((bb >> s) & 0xff) >> j) & 1) == (if bit64(bb, (s + j) as u64) {
            1u64
        } else {
            0u64
        })) by (bit_vector)
        requires
            s <= 56,
    ;
    assert((n - 1) as u64 == (s + 7) as u64);
    assert((n - 2) as u64 == (s + 6) as u64);
    assert((n - 3) as u64 == (s + 5) as u64);
    assert((n - 4) as u64 == (s + 4) as u64);
    assert((n - 5) as u64 == (s + 3) as u64);
    assert((n - 6) as u64 == (s + 2) as u64);
    assert((n - 7) as u64 == (s + 1) as u64);
    assert((n - 8) as u64 == (s + 0) as u64);
}

/// Mirroring does not change the number of set bits.
pub proof fn lemma_count_mirror(bb: u64)
    ensures
        popcount(mirror(bb)) == popcount(bb),
{
    let m = mirror(bb);
    lemma_count_block(m, 64);
    lemma_count_block(m, 56);
    lemma_count_block(m, 48);
    lemma_count_block(m, 40);
    lemma_count_block(m, 32);
    lemma_count_block(m, 24);
    lemma_count_block(m, 16);
    lemma_count_block(m, 8);
    lemma_count_block(bb, 64);
    lemma_count_block(bb, 56);
    lemma_count_block(bb, 48);
    lemma_count_block(bb, 40);
    lemma_count_block(bb, 32);
    lemma_count_block(bb, 24);
    lemma_count_block(bb, 16);
    lemma_count_block(bb, 8);
    assert((mirror(bb) >> 0u64) & 0xff == (bb >> 56u64) & 0xff) by (bit_vector);
    assert((mirror(bb) >> 8u64) & 0xff == (bb >> 48u64) & 0xff) by (bit_vector);
    assert((mirror(bb) >> 16u64) & 0xff == (bb >> 40u64) & 0xff) by (bit_vector);
    assert((mirror(bb) >> 24u64) & 0xff == (bb >> 32u64) & 0xff) by (bit_vector);
    assert((mirror(bb) >> 32u64) & 0xff == (bb >> 24u64) & 0xff) by (bit_vector);
    assert((mirror(bb) >> 40u64) & 0xff == (bb >> 16u64) & 0xff) by (bit_vector);
    assert((mirror(bb) >> 48u64) & 0xff == (bb >> 8u64) & 0xff) by (bit_vector);
    assert((mirror(bb) >> 56u64) & 0xff == (bb >> 0u64) & 0xff) by (bit_vector);
}

/// The square list of a board has one entry per set bit.
pub proof fn lemma_feat_squares_len(bb: u64, off: int, n: int)
    ensures
        feat_squares(bb, off, n).len() == count_upto(bb, n),
    decreases n,
{
    if n > 0 {
        lemma_feat_squares_len(bb, off, n - 1);
    }
}

/// Every entry of the square list lies in `[off, off + n)`.
pub proof fn lemma_feat_squares_bounds(bb: u64, off: int, n: int)
    ensures
        forall|k: int|
            0 <= k < feat_squares(bb, off, n).len() ==> off <= #[trigger] feat_squares(
                bb,
                off,
                n,
            )[k] < off + n,
    decreases n,
{
    if n > 0 {
        lemma_feat_squares_bounds(bb, off, n - 1);
        let prev = feat_squares(bb, off, n - 1);
        let cur = feat_squares(bb, off, n);
        assert forall|k: int| 0 <= k < cur.len() implies off <= #[trigger] cur[k] < off + n by {
            if bit64(bb, (n - 1) as u64) {
                if k < prev.len() {
                    assert(cur[k] == prev[k]);
                } else {
                    assert(cur[k] == off + n - 1);
                }
            } else {
                assert(cur[k] == prev[k]);
            }
        }
    }
}

} // verus!
