//! Sum kernels: add up the values named by a list of row identifiers. A total
//! that does not fit in 64 bits is an overflow, never a wrapped value.
use vstd::prelude::*;
use crate::model::{LANES, full_groups, grouped_sum, ids_in_bounds, lane_sum, selected, seq_sum};
use crate::lemmas::{
    lemma_grouped_sum, lemma_lane_sum_le_total, lemma_seq_sum_nonneg, lemma_seq_sum_prefix_le,
    lemma_seq_sum_take_step,
};
use crate::filter::gather_lanes;

verus! {

/// The sum of `s` as a `u64`, or `None` when it does not fit.
pub open spec fn checked_total(s: Seq<u64>) -> Option<u64> {
    if seq_sum(s) <= u64::MAX {
        Some(seq_sum(s) as u64)
    } else {
        None
    }
}

/// Scalar sum in identifier order, detecting overflow: `None` exactly when the
/// total of the selected values exceeds `u64::MAX`.
pub fn filter_sum_checked(values: &[u64], row_ids: &[u32]) -> (r: Option<u64>)
    requires
        ids_in_bounds(values@, row_ids@),
    ensures
        r == checked_total(selected(values@, row_ids@)),
{
    let ghost sel = selected(values@, row_ids@);
    let mut result: u64 = 0;
    let mut i: usize = 0;
    proof {
        assert(sel.take(0) =~= Seq::<u64>::empty());
    }
    while i < row_ids.len()
        invariant
            i <= row_ids.len(),
            ids_in_bounds(values@, row_ids@),
            sel == selected(values@, row_ids@),
            result == seq_sum(sel.take(i as int)),
        decreases row_ids.len() - i,
    {
        let v = values[row_ids[i] as usize];
        proof {
            lemma_seq_sum_take_step(sel, i as int);
        }
        match result.checked_add(v) {
            Some(s) => result = s,
            None => {
                proof {
                    lemma_seq_sum_prefix_le(sel, i + 1);
                }
                return None;
            },
        }
        i += 1;
    }
    proof {
        assert(sel.take(i as int) =~= sel);
    }
    Some(result)
}

/// Scalar sum in identifier order. The total must fit in 64 bits; use
/// `filter_sum_checked` where it may not.
pub fn filter_sum(values: &[u64], row_ids: &[u32]) -> (r: u64)
    requires
        ids_in_bounds(values@, row_ids@),
        seq_sum(selected(values@, row_ids@)) <= u64::MAX,
    ensures
        r == seq_sum(selected(values@, row_ids@)),
{
    let ghost sel = selected(values@, row_ids@);
    let mut result: u64 = 0;
    let mut i: usize = 0;
    proof {
        assert(sel.take(0) =~= Seq::<u64>::empty());
    }
    while i < row_ids.len()
        invariant
            i <= row_ids.len(),
            ids_in_bounds(values@, row_ids@),
            sel == selected(values@, row_ids@),
            seq_sum(sel) <= u64::MAX,
            result == seq_sum(sel.take(i as int)),
        decreases row_ids.len() - i,
    {
        proof {
            lemma_seq_sum_take_step(sel, i as int);
            lemma_seq_sum_prefix_le(sel, i + 1);
        }
        result = result + values[row_ids[i] as usize];
        i += 1;
    }
    proof {
        assert(sel.take(i as int) =~= sel);
    }
    result
}

/// Vectorized sum detecting overflow. Four lane totals accumulate one value of
/// each full group of four identifiers; they are combined, and the remainder
/// of zero to three values is added. Every addition is checked, in the lanes
/// as well as in the combination, so the result is `None` exactly when the
/// total exceeds `u64::MAX`.
pub fn filter_sum_simd_checked(values: &[u64], row_ids: &[u32]) -> (r: Option<u64>)
    requires
        ids_in_bounds(values@, row_ids@),
    ensures
        r == checked_total(selected(values@, row_ids@)),
        r matches Some(t) ==> t == grouped_sum(selected(values@, row_ids@)),
{
    let ghost sel = selected(values@, row_ids@);
    let n = row_ids.len();
    let grouped: usize = n - n % LANES;
    let mut l0: u64 = 0;
    let mut l1: u64 = 0;
    let mut l2: u64 = 0;
    let mut l3: u64 = 0;
    let mut i: usize = 0;
    proof {
        lemma_grouped_sum(sel);
    }
    while i < grouped
        invariant
            grouped == n - n % 4,
            n == row_ids.len(),
            i % 4 == 0,
            i <= grouped,
            ids_in_bounds(values@, row_ids@),
            sel == selected(values@, row_ids@),
            l0 == lane_sum(sel, 0, i as int / 4),
            l1 == lane_sum(sel, 1, i as int / 4),
            l2 == lane_sum(sel, 2, i as int / 4),
            l3 == lane_sum(sel, 3, i as int / 4),
        decreases grouped - i,
    {
        let lanes = gather_lanes(values, row_ids, i);
        let ghost g = i as int / 4 + 1;
        proof {
            assert((i as int + 4) / 4 == g);
            assert(g <= full_groups(n as int));
            assert(lanes.0 == sel[4 * (g - 1) + 0]);
            assert(lanes.1 == sel[4 * (g - 1) + 1]);
            assert(lanes.2 == sel[4 * (g - 1) + 2]);
            assert(lanes.3 == sel[4 * (g - 1) + 3]);
            lemma_lane_sum_le_total(sel, 0, g);
            lemma_lane_sum_le_total(sel, 1, g);
            lemma_lane_sum_le_total(sel, 2, g);
            lemma_lane_sum_le_total(sel, 3, g);
        }
        l0 = match l0.checked_add(lanes.0) {
            Some(s) => s,
            None => return None,
        };
        l1 = match l1.checked_add(lanes.1) {
            Some(s) => s,
            None => return None,
        };
        l2 = match l2.checked_add(lanes.2) {
            Some(s) => s,
            None => return None,
        };
        l3 = match l3.checked_add(lanes.3) {
            Some(s) => s,
            None => return None,
        };
        i += LANES;
    }
    let ghost g = full_groups(n as int);
    let ghost rest = sel.skip(4 * g);
    proof {
        assert(i as int / 4 == g);
        lemma_seq_sum_nonneg(rest);
        lemma_lane_sum_le_total(sel, 0, g);
        lemma_lane_sum_le_total(sel, 1, g);
        lemma_lane_sum_le_total(sel, 2, g);
        lemma_lane_sum_le_total(sel, 3, g);
    }
    let combined = match l0.checked_add(l1) {
        Some(a) => match a.checked_add(l2) {
            Some(b) => match b.checked_add(l3) {
                Some(c) => c,
                None => return None,
            },
            None => return None,
        },
        None => return None,
    };
    let mut rem: u64 = 0;
    proof {
        assert(rest.take(0) =~= Seq::<u64>::empty());
    }
    while i < n
        invariant
            grouped <= i <= n,
            grouped == n - n % 4,
            grouped == 4 * g,
            n == row_ids.len(),
            ids_in_bounds(values@, row_ids@),
            sel == selected(values@, row_ids@),
            rest == sel.skip(4 * g),
            rest.len() == n - grouped,
            rem == seq_sum(rest.take(i - grouped)),
            seq_sum(sel) == combined + seq_sum(rest),
        decreases n - i,
    {
        let v = values[row_ids[i] as usize];
        proof {
            assert(v == rest[i - grouped]);
            lemma_seq_sum_take_step(rest, i - grouped);
            lemma_seq_sum_prefix_le(rest, i - grouped + 1);
        }
        rem = match rem.checked_add(v) {
            Some(s) => s,
            None => return None,
        };
        i += 1;
    }
    proof {
        assert(rest.take(i - grouped) =~= rest);
    }
    combined.checked_add(rem)
}

/// Vectorized sum. The total must fit in 64 bits; use
/// `filter_sum_simd_checked` where it may not.
pub fn filter_sum_simd(values: &[u64], row_ids: &[u32]) -> (r: u64)
    requires
        ids_in_bounds(values@, row_ids@),
        seq_sum(selected(values@, row_ids@)) <= u64::MAX,
    ensures
        r == seq_sum(selected(values@, row_ids@)),
        r == grouped_sum(selected(values@, row_ids@)),
{
    proof {
        lemma_seq_sum_nonneg(selected(values@, row_ids@));
        lemma_grouped_sum(selected(values@, row_ids@));
    }
    match filter_sum_simd_checked(values, row_ids) {
        Some(total) => total,
        None => 0,
    }
}

} // verus!
