//! Max kernels: the largest of the values named by a non-empty list of row
//! identifiers, under the unsigned order of 64-bit integers.
use vstd::prelude::*;
use crate::model::{
    LANES, full_groups, grouped_max, ids_in_bounds, is_max_of, lane_max, max_u64, selected, seq_max,
};
use crate::lemmas::{lemma_grouped_max, lemma_seq_max_is_max};
use crate::filter::gather_lanes;

verus! {

/// The larger of two values under the unsigned order.
///
/// Hardware that only compares 64-bit lanes as signed integers would put every
/// value at or above 2^63 below the small ones; comparing as `u64` keeps the
/// lane maxima right across the whole range.
fn max_lane(a: u64, b: u64) -> (r: u64)
    ensures
        r == max_u64(a, b),
{
    if a >= b {
        a
    } else {
        b
    }
}

/// Scalar maximum: a left-to-right scan of the selected values. The selection
/// must not be empty.
pub fn filter_max(values: &[u64], row_ids: &[u32]) -> (r: u64)
    requires
        ids_in_bounds(values@, row_ids@),
        row_ids.len() > 0,
    ensures
        r == seq_max(selected(values@, row_ids@)),
        is_max_of(selected(values@, row_ids@), r),
{
    let ghost sel = selected(values@, row_ids@);
    let mut m = values[row_ids[0] as usize];
    let mut i: usize = 1;
    while i < row_ids.len()
        invariant
            1 <= i <= row_ids.len(),
            ids_in_bounds(values@, row_ids@),
            sel == selected(values@, row_ids@),
            m == seq_max(sel.take(i as int)),
        decreases row_ids.len() - i,
    {
        proof {
            assert(sel.take(i + 1).drop_last() =~= sel.take(i as int));
        }
        m = max_lane(m, values[row_ids[i] as usize]);
        i += 1;
    }
    proof {
        assert(sel.take(i as int) =~= sel);
        lemma_seq_max_is_max(sel);
    }
    m
}

/// Vectorized maximum. A selection shorter than one group of four goes
/// entirely through the scalar scan. Otherwise four lanes start from the first
/// gathered group and keep, lane by lane, the larger of what they hold and the
/// next gathered value; the lanes are then reduced to one value, and the
/// maximum of the remainder of zero to three values is folded in. Lanes are
/// compared under the unsigned order, so values at or above 2^63 are handled
/// like any others. The selection must not be empty.
pub fn filter_max_simd(values: &[u64], row_ids: &[u32]) -> (r: u64)
    requires
        ids_in_bounds(values@, row_ids@),
        row_ids.len() > 0,
    ensures
        r == seq_max(selected(values@, row_ids@)),
        is_max_of(selected(values@, row_ids@), r),
        row_ids.len() >= LANES ==> r == grouped_max(selected(values@, row_ids@)),
{
    let n = row_ids.len();
    if n < LANES {
        return filter_max(values, row_ids);
    }
    let ghost sel = selected(values@, row_ids@);
    let grouped: usize = n - n % LANES;
    let first = gather_lanes(values, row_ids, 0);
    let mut l0 = first.0;
    let mut l1 = first.1;
    let mut l2 = first.2;
    let mut l3 = first.3;
    let mut i: usize = LANES;
    while i < grouped
        invariant
            grouped == n - n % 4,
            n == row_ids.len(),
            i % 4 == 0,
            4 <= i <= grouped,
            ids_in_bounds(values@, row_ids@),
            sel == selected(values@, row_ids@),
            l0 == lane_max(sel, 0, i as int / 4),
            l1 == lane_max(sel, 1, i as int / 4),
            l2 == lane_max(sel, 2, i as int / 4),
            l3 == lane_max(sel, 3, i as int / 4),
        decreases grouped - i,
    {
        let lanes = gather_lanes(values, row_ids, i);
        proof {
            let g = i as int / 4 + 1;
            assert((i as int + 4) / 4 == g);
            assert(lanes.0 == sel[4 * (g - 1) + 0]);
            assert(lanes.1 == sel[4 * (g - 1) + 1]);
            assert(lanes.2 == sel[4 * (g - 1) + 2]);
            assert(lanes.3 == sel[4 * (g - 1) + 3]);
        }
        l0 = max_lane(l0, lanes.0);
        l1 = max_lane(l1, lanes.1);
        l2 = max_lane(l2, lanes.2);
        l3 = max_lane(l3, lanes.3);
        i += LANES;
    }
    let ghost g = full_groups(n as int);
    let ghost rest = sel.skip(4 * g);
    let lanes_max = max_lane(max_lane(l0, l1), max_lane(l2, l3));
    proof {
        lemma_grouped_max(sel);
        lemma_seq_max_is_max(sel);
    }
    if grouped == n {
        return lanes_max;
    }
    let mut rem = values[row_ids[grouped] as usize];
    i = grouped + 1;
    while i < n
        invariant
            grouped < i <= n,
            grouped == 4 * g,
            n == row_ids.len(),
            ids_in_bounds(values@, row_ids@),
            sel == selected(values@, row_ids@),
            rest == sel.skip(4 * g),
            rest.len() == n - grouped,
            rem == seq_max(rest.take(i - grouped)),
        decreases n - i,
    {
        proof {
            assert(rest.take(i - grouped + 1).drop_last() =~= rest.take(i - grouped));
        }
        rem = max_lane(rem, values[row_ids[i] as usize]);
        i += 1;
    }
    proof {
        assert(rest.take(i - grouped) =~= rest);
    }
    max_lane(lanes_max, rem)
}

} // verus!
