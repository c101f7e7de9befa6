//! Materialise kernels: copy the values named by a list of row identifiers
//! into a caller-owned destination buffer, in identifier order.
use vstd::prelude::*;
use crate::model::{
    LANES, full_groups, gather_group, gathered_groups, grouped_materialise, ids_in_bounds, selected,
};
use crate::lemmas::lemma_grouped_materialise;

verus! {

/// Scalar materialisation: the destination is cleared, then receives
/// `values[id]` for each identifier in turn, and is handed back.
pub fn filter_materialise_values(values: &[u64], row_ids: &[u32], dst: Vec<u64>) -> (r: Vec<u64>)
    requires
        ids_in_bounds(values@, row_ids@),
    ensures
        r@ == selected(values@, row_ids@),
        r.len() == row_ids.len(),
{
    let mut dst = dst;
    dst.clear();
    dst.reserve(row_ids.len());
    let mut i: usize = 0;
    while i < row_ids.len()
        invariant
            i <= row_ids.len(),
            ids_in_bounds(values@, row_ids@),
            dst@ == selected(values@, row_ids@).take(i as int),
        decreases row_ids.len() - i,
    {
        let id = row_ids[i];
        dst.push(values[id as usize]);
        i += 1;
        assert(dst@ =~= selected(values@, row_ids@).take(i as int));
    }
    assert(dst@ =~= selected(values@, row_ids@));
    dst
}

/// Gathers the four values named by `row_ids[start..start + 4]`: the one
/// place where a whole lane group is read, with its bounds checked once here.
pub fn gather_lanes(values: &[u64], row_ids: &[u32], start: usize) -> (r: (u64, u64, u64, u64))
    requires
        start + LANES <= row_ids.len(),
        ids_in_bounds(values@, row_ids@),
    ensures
        seq![r.0, r.1, r.2, r.3] == gather_group(values@, row_ids@, start as int),
{
    (
        values[row_ids[start] as usize],
        values[row_ids[start + 1] as usize],
        values[row_ids[start + 2] as usize],
        values[row_ids[start + 3] as usize],
    )
}

/// Vectorized materialisation: each full group of four identifiers is
/// gathered and stored as a unit; the remaining zero to three identifiers are
/// copied one at a time.
pub fn filter_materialise_values_simd(values: &[u64], row_ids: &[u32], dst: Vec<u64>) -> (r: Vec<
    u64,
>)
    requires
        ids_in_bounds(values@, row_ids@),
    ensures
        r@ == grouped_materialise(values@, row_ids@),
        r@ == selected(values@, row_ids@),
        r.len() == row_ids.len(),
{
    let mut dst = dst;
    dst.clear();
    dst.reserve(row_ids.len());
    let n = row_ids.len();
    let grouped: usize = n - n % LANES;
    let mut i: usize = 0;
    while i < grouped
        invariant
            grouped == n - n % 4,
            n == row_ids.len(),
            i % 4 == 0,
            i <= grouped,
            ids_in_bounds(values@, row_ids@),
            dst@ == gathered_groups(values@, row_ids@, i as int / 4),
        decreases grouped - i,
    {
        let lanes = gather_lanes(values, row_ids, i);
        dst.push(lanes.0);
        dst.push(lanes.1);
        dst.push(lanes.2);
        dst.push(lanes.3);
        proof {
            assert(((i + 4) / 4) as nat - 1 == i / 4);
        }
        i += LANES;
        assert(dst@ =~= gathered_groups(values@, row_ids@, i as int / 4));
    }
    let ghost prefix = dst@;
    while i < n
        invariant
            grouped <= i <= n,
            grouped == n - n % 4,
            n == row_ids.len(),
            ids_in_bounds(values@, row_ids@),
            prefix == gathered_groups(values@, row_ids@, full_groups(n as int)),
            dst@ == prefix + selected(values@, row_ids@).subrange(grouped as int, i as int),
        decreases n - i,
    {
        let id = row_ids[i];
        dst.push(values[id as usize]);
        i += 1;
        assert(dst@ =~= prefix + selected(values@, row_ids@).subrange(grouped as int, i as int));
    }
    proof {
        lemma_grouped_materialise(values@, row_ids@);
        assert(selected(values@, row_ids@).subrange(grouped as int, n as int) =~= selected(
            values@,
            row_ids@,
        ).skip(grouped as int));
    }
    dst
}

} // verus!
