//! Batch assembly: a slice of decompressed records becomes the flat
//! training buffers, one stride-long row per sample.

use crate::inputs::{
    lemma_feature_mapper_bounds, map_policy_inputs, policy_inputs, to_ints, MAX_ACTIVE,
};
use crate::moves::{map_move_to_index, move_index, Move, MAX_MOVES};
use crate::position::Position;
use vstd::prelude::*;

verus! {

/// Why batch preparation failed. Corrupted input is surfaced, never
/// silently truncated or wrapped.
#[derive(Clone, Copy, PartialEq, Eq, Structural, Debug)]
pub enum PrepareError {
    /// A record produced more features than a sample row holds.
    OutOfRangeIndex,
    /// The two perspectives of one record disagreed on the feature
    /// count.
    PerspectiveMismatch,
}

/// One training example as the record source hands it over: a
/// position, a fixed-capacity array of (move, visit count) pairs, and
/// the count of valid entries.
#[derive(Clone, Copy)]
pub struct DecompressedData {
    pub pos: Position,
    pub moves: [(u16, u16); 108],
    pub num: usize,
}

impl DecompressedData {
    /// The valid count stays within the fixed capacity and the
    /// position names a real side to move.
    pub open spec fn wf(self) -> bool {
        self.num <= 108 && self.pos.wf()
    }
}

/// A flat buffer of feature or move indices with its per-row stride;
/// -1 marks unused slots.
#[derive(Clone)]
pub struct SparseInput {
    pub value: Vec<i32>,
    pub max_active: usize,
}

/// Raw visit counts, one stride-long row per sample, beside each
/// row's total. Dividing a row's valid entries by its total yields
/// the normalized visit distribution; a row whose total is zero has
/// no valid entries and is the caller's to ignore.
pub struct VisitCounts {
    pub value: Vec<u32>,
    pub totals: Vec<u32>,
}

/// One assembled batch.
pub struct PreparedData {
    pub batch_size: usize,
    pub stm: SparseInput,
    pub ntm: SparseInput,
    pub mask: SparseInput,
    pub dist: VisitCounts,
}

/// Element `j` of a perspective's feature row: the j-th active
/// feature, then -1 padding.
pub open spec fn feat_elem(pos: Position, side: int, j: int) -> i32 {
    if j < policy_inputs(pos, side).len() {
        policy_inputs(pos, side)[j] as i32
    } else {
        -1i32
    }
}

/// A perspective's feature row.
pub open spec fn feat_row(pos: Position, side: int) -> Seq<i32> {
    Seq::new(32, |j: int| feat_elem(pos, side, j))
}

/// Element `k` of a record's legal-move mask row: the move's slot,
/// then one -1 sentinel, then zeros.
pub open spec fn mask_elem(rec: DecompressedData, k: int) -> i32 {
    if k < rec.num {
        move_index(rec.pos.stm as int, rec.moves@[k].0) as i32
    } else if k == rec.num {
        -1i32
    } else {
        0
    }
}

/// A record's legal-move mask row.
pub open spec fn mask_row(rec: DecompressedData) -> Seq<i32> {
    Seq::new(108, |k: int| mask_elem(rec, k))
}

/// Element `k` of a record's raw-visit row.
pub open spec fn dist_elem(rec: DecompressedData, k: int) -> u32 {
    if k < rec.num {
        rec.moves@[k].1 as u32
    } else {
        0
    }
}

/// A record's raw-visit row.
pub open spec fn dist_row(rec: DecompressedData) -> Seq<u32> {
    Seq::new(108, |k: int| dist_elem(rec, k))
}

/// Sum of the visit counts of the first `n` moves of a record.
pub open spec fn visits_upto(rec: DecompressedData, n: int) -> int
    decreases n,
{
    if n <= 0 {
        0
    } else {
        visits_upto(rec, n - 1) + rec.moves@[n - 1].1
    }
}

/// A record's total visit count.
pub open spec fn total_visits(rec: DecompressedData) -> int {
    visits_upto(rec, rec.num as int)
}

/// The failure one record provokes, if any: the two perspectives'
/// feature counts must agree, and fit a row.
pub open spec fn record_error(rec: DecompressedData) -> Option<PrepareError> {
    let own = policy_inputs(rec.pos, rec.pos.stm as int).len();
    let opp = policy_inputs(rec.pos, 1 - rec.pos.stm as int).len();
    if own != opp {
        Some(PrepareError::PerspectiveMismatch)
    } else if own > 32 {
        Some(PrepareError::OutOfRangeIndex)
    } else {
        None
    }
}

/// The first failure among the first `n` records, if any.
pub open spec fn batch_error_upto(data: Seq<DecompressedData>, n: int) -> Option<PrepareError>
    decreases n,
{
    if n <= 0 {
        None
    } else if batch_error_upto(data, n - 1) is Some {
        batch_error_upto(data, n - 1)
    } else {
        record_error(data[n - 1])
    }
}

/// The first failure a batch provokes, if any.
pub open spec fn batch_error(data: Seq<DecompressedData>) -> Option<PrepareError> {
    batch_error_upto(data, data.len() as int)
}

/// The own-perspective feature buffer of the first `n` records.
pub open spec fn stm_buf(data: Seq<DecompressedData>, n: int) -> Seq<i32>
    decreases n,
{
    if n <= 0 {
        Seq::empty()
    } else {
        stm_buf(data, n - 1) + feat_row(data[n - 1].pos, data[n - 1].pos.stm as int)
    }
}

/// The opponent-perspective feature buffer of the first `n` records.
pub open spec fn ntm_buf(data: Seq<DecompressedData>, n: int) -> Seq<i32>
    decreases n,
{
    if n <= 0 {
        Seq::empty()
    } else {
        ntm_buf(data, n - 1) + feat_row(data[n - 1].pos, 1 - data[n - 1].pos.stm as int)
    }
}

/// The legal-move mask buffer of the first `n` records.
pub open spec fn mask_buf(data: Seq<DecompressedData>, n: int) -> Seq<i32>
    decreases n,
{
    if n <= 0 {
        Seq::empty()
    } else {
        mask_buf(data, n - 1) + mask_row(data[n - 1])
    }
}

/// The raw-visit buffer of the first `n` records.
pub open spec fn dist_buf(data: Seq<DecompressedData>, n: int) -> Seq<u32>
    decreases n,
{
    if n <= 0 {
        Seq::empty()
    } else {
        dist_buf(data, n - 1) + dist_row(data[n - 1])
    }
}

/// The per-row visit totals of the first `n` records.
pub open spec fn totals_buf(data: Seq<DecompressedData>, n: int) -> Seq<u32>
    decreases n,
{
    if n <= 0 {
        Seq::empty()
    } else {
        totals_buf(data, n - 1).push(total_visits(data[n - 1]) as u32)
    }
}

/// The batch `p` is exactly the prepared form of `data`: every buffer
/// is the concatenation of its per-record rows in record order.
pub open spec fn is_prepared_for(p: PreparedData, data: Seq<DecompressedData>) -> bool {
    let n = data.len() as int;
    &&& p.batch_size == data.len()
    &&& p.stm.max_active == 32
    &&& p.ntm.max_active == 32
    &&& p.mask.max_active == 108
    &&& p.stm.value@ == stm_buf(data, n)
    &&& p.ntm.value@ == ntm_buf(data, n)
    &&& p.mask.value@ == mask_buf(data, n)
    &&& p.dist.value@ == dist_buf(data, n)
    &&& p.dist.totals@ == totals_buf(data, n)
}

/// Every buffer of a prepared batch is pre-sized to its stride times
/// the record count: 32 slots per feature row, 108 per mask or visit
/// row, one total per record.
pub proof fn lemma_buf_lens(data: Seq<DecompressedData>, n: int)
    requires
        0 <= n,
    ensures
        stm_buf(data, n).len() == 32 * n,
        ntm_buf(data, n).len() == 32 * n,
        mask_buf(data, n).len() == 108 * n,
        dist_buf(data, n).len() == 108 * n,
        totals_buf(data, n).len() == n,
    decreases n,
{
    if n > 0 {
        lemma_buf_lens(data, n - 1);
    }
}

/// Once a failure has shown, later records do not change it.
proof fn lemma_upto_some_stays(data: Seq<DecompressedData>, m: int, n: int)
    requires
        0 <= m <= n,
        batch_error_upto(data, m) is Some,
    ensures
        batch_error_upto(data, n) == batch_error_upto(data, m),
    decreases n - m,
{
    if n > m {
        lemma_upto_some_stays(data, m, n - 1);
    }
}

/// The sum of the first `n` visit counts stays small: each is a
/// 16-bit value.
proof fn lemma_visits_bound(rec: DecompressedData, n: int)
    requires
        0 <= n,
    ensures
        0 <= visits_upto(rec, n) <= 65535 * n,
    decreases n,
{
    if n > 0 {
        lemma_visits_bound(rec, n - 1);
    }
}

/// Writes one feature row: the feature indices, then -1 padding up to
/// the stride of 32.
fn push_feat_row(buf: &mut Vec<i32>, feats: &Vec<usize>, Ghost(pos): Ghost<Position>, Ghost(side): Ghost<int>)
    requires
        side == 0 || side == 1,
        to_ints(feats@) == policy_inputs(pos, side),
        feats@.len() <= 32,
    ensures
        final(buf)@ == old(buf)@ + feat_row(pos, side),
{
    let ghost orig = buf@;
    let n = feats.len();
    proof {
        lemma_feature_mapper_bounds(pos, side);
    }
    for j in 0..n
        invariant
            n == feats@.len(),
            n <= 32,
            side == 0 || side == 1,
            to_ints(feats@) == policy_inputs(pos, side),
            buf@ == orig + feat_row(pos, side).take(j as int),
            forall|k: int|
                0 <= k < policy_inputs(pos, side).len() ==> 0 <= #[trigger] policy_inputs(
                    pos,
                    side,
                )[k] < 768,
    {
        let f = feats[j];
        proof {
            assert(to_ints(feats@)[j as int] == f as int);
            assert(0 <= policy_inputs(pos, side)[j as int] < 768);
        }
        buf.push(f as i32);
        proof {
            assert(feat_elem(pos, side, j as int) == f as i32);
            assert(feat_row(pos, side).take(j + 1) =~= feat_row(pos, side).take(j as int).push(
                feat_elem(pos, side, j as int),
            ));
            assert(buf@ =~= orig + feat_row(pos, side).take(j + 1));
        }
    }
    for j in n..32
        invariant
            n == feats@.len(),
            n <= 32,
            side == 0 || side == 1,
            to_ints(feats@) == policy_inputs(pos, side),
            buf@ == orig + feat_row(pos, side).take(j as int),
    {
        buf.push(-1);
        proof {
            assert(feat_elem(pos, side, j as int) == -1i32);
            assert(feat_row(pos, side).take(j + 1) =~= feat_row(pos, side).take(j as int).push(
                -1i32,
            ));
            assert(buf@ =~= orig + feat_row(pos, side).take(j + 1));
        }
    }
    proof {
        assert(feat_row(pos, side).take(32) =~= feat_row(pos, side));
    }
}

impl PreparedData {
    /// Assembles one batch of records into flat buffers: per record
    /// the two perspectives' feature rows padded with -1, the move
    /// slots with their sentinel, and the raw visit counts beside
    /// their total. A feature or move index out of range or a
    /// perspective count mismatch aborts the batch with the first
    /// record's failure. The worker count only partitions work; every
    /// row is a function of its record alone, so the buffers do not
    /// depend on it.
    #[allow(unused_variables)]
    pub fn new(data: &[DecompressedData], threads: usize) -> (r: Result<PreparedData, PrepareError>)
        requires
            threads >= 1,
            forall|t: int| 0 <= t < data@.len() ==> (#[trigger] data@[t]).wf(),
        ensures
            match r {
                Ok(p) => batch_error(data@) is None && is_prepared_for(p, data@),
                Err(e) => batch_error(data@) == Some(e),
            },
    {
        let batch_size = data.len();
        let mut stm_value: Vec<i32> = Vec::new();
        let mut ntm_value: Vec<i32> = Vec::new();
        let mut mask_value: Vec<i32> = Vec::new();
        let mut dist_value: Vec<u32> = Vec::new();
        let mut totals: Vec<u32> = Vec::new();
        proof {
            assert(stm_value@ =~= stm_buf(data@, 0));
            assert(ntm_value@ =~= ntm_buf(data@, 0));
            assert(mask_value@ =~= mask_buf(data@, 0));
            assert(dist_value@ =~= dist_buf(data@, 0));
            assert(totals@ =~= totals_buf(data@, 0));
        }
        for i in 0..batch_size
            invariant
                batch_size == data@.len(),
                forall|t: int| 0 <= t < data@.len() ==> (#[trigger] data@[t]).wf(),
                batch_error_upto(data@, i as int) is None,
                stm_value@ == stm_buf(data@, i as int),
                ntm_value@ == ntm_buf(data@, i as int),
                mask_value@ == mask_buf(data@, i as int),
                dist_value@ == dist_buf(data@, i as int),
                totals@ == totals_buf(data@, i as int),
        {
            let point = &data[i];
            let side = point.pos.stm();
            let own = map_policy_inputs(&point.pos, side);
            let opp = map_policy_inputs(&point.pos, 1 - side);
            if own.len() != opp.len() {
                proof {
                    assert(record_error(data@[i as int]) == Some(
                        PrepareError::PerspectiveMismatch,
                    ));
                    assert(batch_error_upto(data@, i + 1) == Some(
                        PrepareError::PerspectiveMismatch,
                    ));
                    lemma_upto_some_stays(data@, i + 1, data@.len() as int);
                }
                return Err(PrepareError::PerspectiveMismatch);
            }
            if own.len() > MAX_ACTIVE {
                proof {
                    assert(record_error(data@[i as int]) == Some(PrepareError::OutOfRangeIndex));
                    assert(batch_error_upto(data@, i + 1) == Some(PrepareError::OutOfRangeIndex));
                    lemma_upto_some_stays(data@, i + 1, data@.len() as int);
                }
                return Err(PrepareError::OutOfRangeIndex);
            }
            proof {
                assert(record_error(data@[i as int]) is None);
                assert(batch_error_upto(data@, i + 1) is None);
            }
            push_feat_row(&mut stm_value, &own, Ghost(point.pos), Ghost(side as int));
            push_feat_row(&mut ntm_value, &opp, Ghost(point.pos), Ghost(1 - side as int));
            let ghost mrec = data@[i as int];
            let num = point.num;
            let mut total: u32 = 0;
            let ghost mask_base = mask_value@;
            let ghost dist_base = dist_value@;
            for k in 0..num
                invariant
                    num == mrec.num,
                    mrec.wf(),
                    *point == mrec,
                    mask_value@ == mask_base + mask_row(mrec).take(k as int),
                    dist_value@ == dist_base + dist_row(mrec).take(k as int),
                    total as int == visits_upto(mrec, k as int),
            {
                let (mov_raw, visits) = point.moves[k];
                let idx = map_move_to_index(&point.pos, Move { raw: mov_raw });
                mask_value.push(idx as i32);
                dist_value.push(visits as u32);
                proof {
                    lemma_visits_bound(mrec, k as int);
                    assert(visits_upto(mrec, k + 1) == visits_upto(mrec, k as int)
                        + mrec.moves@[k as int].1);
                }
                total = total + (visits as u32);
                proof {
                    assert(mask_elem(mrec, k as int) == idx as i32);
                    assert(mask_row(mrec).take(k + 1) =~= mask_row(mrec).take(k as int).push(
                        mask_elem(mrec, k as int),
                    ));
                    assert(mask_value@ =~= mask_base + mask_row(mrec).take(k + 1));
                    assert(dist_elem(mrec, k as int) == visits as u32);
                    assert(dist_row(mrec).take(k + 1) =~= dist_row(mrec).take(k as int).push(
                        dist_elem(mrec, k as int),
                    ));
                    assert(dist_value@ =~= dist_base + dist_row(mrec).take(k + 1));
                }
            }
            for k in num..108
                invariant
                    num == mrec.num,
                    mrec.wf(),
                    num <= k <= 108,
                    mask_value@ == mask_base + mask_row(mrec).take(k as int),
                    dist_value@ == dist_base + dist_row(mrec).take(k as int),
            {
                if k == num {
                    mask_value.push(-1);
                } else {
                    mask_value.push(0);
                }
                dist_value.push(0);
                proof {
                    assert(mask_row(mrec).take(k + 1) =~= mask_row(mrec).take(k as int).push(
                        mask_elem(mrec, k as int),
                    ));
                    assert(mask_value@ =~= mask_base + mask_row(mrec).take(k + 1));
                    assert(dist_elem(mrec, k as int) == 0u32);
                    assert(dist_row(mrec).take(k + 1) =~= dist_row(mrec).take(k as int).push(
                        0u32,
                    ));
                    assert(dist_value@ =~= dist_base + dist_row(mrec).take(k + 1));
                }
            }
            totals.push(total);
            proof {
                assert(mask_row(mrec).take(108) =~= mask_row(mrec));
                assert(dist_row(mrec).take(108) =~= dist_row(mrec));
                assert(total as int == total_visits(mrec));
                assert(stm_value@ == stm_buf(data@, i + 1));
                assert(ntm_value@ == ntm_buf(data@, i + 1));
                assert(mask_value@ == mask_buf(data@, i + 1));
                assert(dist_value@ == dist_buf(data@, i + 1));
                assert(totals@ == totals_buf(data@, i + 1));
            }
        }
        Ok(
            PreparedData {
                batch_size,
                stm: SparseInput { value: stm_value, max_active: MAX_ACTIVE },
                ntm: SparseInput { value: ntm_value, max_active: MAX_ACTIVE },
                mask: SparseInput { value: mask_value, max_active: MAX_MOVES },
                dist: VisitCounts { value: dist_value, totals },
            },
        )
    }
}

/// Sum of the first `n` entries of a record's raw-visit row.
pub open spec fn dist_row_sum(rec: DecompressedData, n: int) -> int
    decreases n,
{
    if n <= 0 {
        0
    } else {
        dist_row_sum(rec, n - 1) + dist_elem(rec, n - 1)
    }
}

proof fn lemma_dist_sum_eq(rec: DecompressedData, n: int)
    requires
        0 <= n <= rec.num,
    ensures
        dist_row_sum(rec, n) == visits_upto(rec, n),
    decreases n,
{
    if n > 0 {
        lemma_dist_sum_eq(rec, n - 1);
    }
}

/// Over its valid entries the raw-visit row sums to exactly the row's
/// total, so dividing each valid entry by the total yields a
/// distribution whose mass is exactly one whenever the record has at
/// least one visited move.
pub proof fn lemma_distribution_mass(rec: DecompressedData)
    requires
        rec.wf(),
    ensures
        dist_row_sum(rec, rec.num as int) == total_visits(rec),
{
    lemma_dist_sum_eq(rec, rec.num as int);
}

/// Every slot of a prepared row stays inside its declared space:
/// a feature-row slot holds -1 or an index below INPUT_SIZE, and a
/// mask-row slot holds -1, a pad zero, or a move slot below
/// NUM_MOVES.
pub proof fn lemma_row_ranges(rec: DecompressedData)
    requires
        rec.wf(),
    ensures
        forall|j: int|
            0 <= j < 32 ==> -1 <= #[trigger] feat_row(rec.pos, rec.pos.stm as int)[j] < 768,
        forall|j: int|
            0 <= j < 32 ==> -1 <= #[trigger] feat_row(rec.pos, 1 - rec.pos.stm as int)[j] < 768,
        forall|k: int| 0 <= k < 108 ==> -1 <= #[trigger] mask_row(rec)[k] < 4096,
{
    lemma_feature_mapper_bounds(rec.pos, rec.pos.stm as int);
    lemma_feature_mapper_bounds(rec.pos, 1 - rec.pos.stm as int);
    assert forall|k: int| 0 <= k < 108 implies -1 <= #[trigger] mask_row(rec)[k] < 4096 by {
        if k < rec.num {
            crate::moves::lemma_move_index_range(rec.pos.stm as int, rec.moves@[k].0);
        }
    }
}

/// A perspective count mismatch can never actually arise: for
/// well-formed records the two perspectives always yield equally many
/// features, so batch preparation never fails with it.
pub proof fn lemma_perspective_mismatch_unreachable(data: Seq<DecompressedData>)
    requires
        forall|t: int| 0 <= t < data.len() ==> (#[trigger] data[t]).wf(),
    ensures
        batch_error(data) != Some(PrepareError::PerspectiveMismatch),
{
    lemma_no_mismatch_upto(data, data.len() as int);
}

proof fn lemma_no_mismatch_upto(data: Seq<DecompressedData>, n: int)
    requires
        n <= data.len(),
        forall|t: int| 0 <= t < data.len() ==> (#[trigger] data[t]).wf(),
    ensures
        batch_error_upto(data, n) != Some(PrepareError::PerspectiveMismatch),
    decreases n,
{
    if n > 0 {
        lemma_no_mismatch_upto(data, n - 1);
        crate::inputs::lemma_perspective_counts_agree(data[n - 1].pos);
    }
}

/// Sentinel placement: a record with `k < MAX_MOVES` valid moves has
/// -1 in its mask row right after the last valid entry, and every
/// valid entry holds its move's slot; a full row has no sentinel.
pub proof fn lemma_sentinel_placement(rec: DecompressedData)
    requires
        rec.wf(),
    ensures
        rec.num < 108 ==> mask_row(rec)[rec.num as int] == -1i32,
        forall|k: int|
            0 <= k < rec.num ==> mask_row(rec)[k] == move_index(
                rec.pos.stm as int,
                rec.moves@[k].0,
            ) as i32,
{
}

proof fn lemma_bufs_prefix(a: Seq<DecompressedData>, b: Seq<DecompressedData>, n: int)
    requires
        forall|k: int| 0 <= k < n ==> a[k] == b[k],
    ensures
        stm_buf(a, n) == stm_buf(b, n),
        ntm_buf(a, n) == ntm_buf(b, n),
        mask_buf(a, n) == mask_buf(b, n),
        dist_buf(a, n) == dist_buf(b, n),
        totals_buf(a, n) == totals_buf(b, n),
        batch_error_upto(a, n) == batch_error_upto(b, n),
    decreases n,
{
    if n > 0 {
        lemma_bufs_prefix(a, b, n - 1);
    }
}

proof fn lemma_bufs_concat_n(d1: Seq<DecompressedData>, d2: Seq<DecompressedData>, n: int)
    requires
        0 <= n <= d2.len(),
    ensures
        stm_buf(d1 + d2, d1.len() + n) == stm_buf(d1, d1.len() as int) + stm_buf(d2, n),
        ntm_buf(d1 + d2, d1.len() + n) == ntm_buf(d1, d1.len() as int) + ntm_buf(d2, n),
        mask_buf(d1 + d2, d1.len() + n) == mask_buf(d1, d1.len() as int) + mask_buf(d2, n),
        dist_buf(d1 + d2, d1.len() + n) == dist_buf(d1, d1.len() as int) + dist_buf(d2, n),
        totals_buf(d1 + d2, d1.len() + n) == totals_buf(d1, d1.len() as int) + totals_buf(d2, n),
        batch_error_upto(d1 + d2, d1.len() + n) == if batch_error_upto(
            d1,
            d1.len() as int,
        ) is Some {
            batch_error_upto(d1, d1.len() as int)
        } else {
            batch_error_upto(d2, n)
        },
    decreases n,
{
    if n <= 0 {
        lemma_bufs_prefix(d1 + d2, d1, d1.len() as int);
        assert(stm_buf(d1 + d2, d1.len() as int) =~= stm_buf(d1, d1.len() as int) + stm_buf(
            d2,
            0,
        ));
        assert(ntm_buf(d1 + d2, d1.len() as int) =~= ntm_buf(d1, d1.len() as int) + ntm_buf(
            d2,
            0,
        ));
        assert(mask_buf(d1 + d2, d1.len() as int) =~= mask_buf(d1, d1.len() as int) + mask_buf(
            d2,
            0,
        ));
        assert(dist_buf(d1 + d2, d1.len() as int) =~= dist_buf(d1, d1.len() as int) + dist_buf(
            d2,
            0,
        ));
        assert(totals_buf(d1 + d2, d1.len() as int) =~= totals_buf(d1, d1.len() as int)
            + totals_buf(d2, 0));
    } else {
        lemma_bufs_concat_n(d1, d2, n - 1);
        assert((d1 + d2)[d1.len() + n - 1] == d2[n - 1]);
        assert(stm_buf(d1 + d2, d1.len() + n) =~= stm_buf(d1, d1.len() as int) + stm_buf(d2, n));
        assert(ntm_buf(d1 + d2, d1.len() + n) =~= ntm_buf(d1, d1.len() as int) + ntm_buf(d2, n));
        assert(mask_buf(d1 + d2, d1.len() + n) =~= mask_buf(d1, d1.len() as int) + mask_buf(
            d2,
            n,
        ));
        assert(dist_buf(d1 + d2, d1.len() + n) =~= dist_buf(d1, d1.len() as int) + dist_buf(
            d2,
            n,
        ));
        assert(totals_buf(d1 + d2, d1.len() + n) =~= totals_buf(d1, d1.len() as int) + totals_buf(
            d2,
            n,
        ));
    }
}

/// Assembling a batch chunk by chunk equals assembling it whole:
/// every buffer of the whole batch is the concatenation of the
/// chunks' buffers, and the batch fails exactly when some chunk
/// fails, with the first chunk's failure winning. Workers that
/// prepare disjoint chunks in parallel therefore produce exactly the
/// buffers of a single sequential pass, whatever the worker count.
pub proof fn lemma_assembly_chunked(d1: Seq<DecompressedData>, d2: Seq<DecompressedData>)
    ensures
        stm_buf(d1 + d2, (d1 + d2).len() as int) == stm_buf(d1, d1.len() as int) + stm_buf(
            d2,
            d2.len() as int,
        ),
        ntm_buf(d1 + d2, (d1 + d2).len() as int) == ntm_buf(d1, d1.len() as int) + ntm_buf(
            d2,
            d2.len() as int,
        ),
        mask_buf(d1 + d2, (d1 + d2).len() as int) == mask_buf(d1, d1.len() as int) + mask_buf(
            d2,
            d2.len() as int,
        ),
        dist_buf(d1 + d2, (d1 + d2).len() as int) == dist_buf(d1, d1.len() as int) + dist_buf(
            d2,
            d2.len() as int,
        ),
        totals_buf(d1 + d2, (d1 + d2).len() as int) == totals_buf(d1, d1.len() as int)
            + totals_buf(d2, d2.len() as int),
        batch_error(d1 + d2) == if batch_error(d1) is Some {
            batch_error(d1)
        } else {
            batch_error(d2)
        },
{
    lemma_bufs_concat_n(d1, d2, d2.len() as int);
}

/// Determinism: two prepared forms of the same records carry
/// identical buffers, whatever worker counts produced them.
pub proof fn lemma_assembly_deterministic(
    a: PreparedData,
    b: PreparedData,
    data: Seq<DecompressedData>,
)
    requires
        is_prepared_for(a, data),
        is_prepared_for(b, data),
    ensures
        a.batch_size == b.batch_size,
        a.stm.value@ == b.stm.value@,
        a.ntm.value@ == b.ntm.value@,
        a.mask.value@ == b.mask.value@,
        a.dist.value@ == b.dist.value@,
        a.dist.totals@ == b.dist.totals@,
{
}

/// Configuration of the record source: where it reads and how large
/// its read-ahead buffer is. Storage access itself stays outside this
/// core; batches of already-decompressed records come back through
/// `prepare`.
#[derive(Clone)]
pub struct DataPreparer {
    pub path: String,
    pub buffer_size_mb: usize,
}

impl DataPreparer {
    /// Remembers the data file's path and the read-ahead buffer size.
    pub fn new(path: &str, buffer_size_mb: usize) -> (r: Self)
        ensures
            r.path@ == path@,
            r.buffer_size_mb == buffer_size_mb,
    {
        DataPreparer { path: path.to_owned(), buffer_size_mb }
    }

    /// Converts one batch of records into flat training buffers; see
    /// `PreparedData::new`.
    pub fn prepare(&self, data: &[DecompressedData], threads: usize) -> (r: Result<
        PreparedData,
        PrepareError,
    >)
        requires
            threads >= 1,
            forall|t: int| 0 <= t < data@.len() ==> (#[trigger] data@[t]).wf(),
        ensures
            match r {
                Ok(p) => batch_error(data@) is None && is_prepared_for(p, data@),
                Err(e) => batch_error(data@) == Some(e),
            },
    {
        PreparedData::new(data, threads)
    }
}

} // verus!
