//! Mathematical model of the filter kernels: the selected values, their sum and
//! maximum, and the lane-grouped view that the vectorized strategies compute.
use vstd::prelude::*;

verus! {

/// Number of 64-bit lanes processed together by the vectorized strategies.
pub const LANES: usize = 4;

/// Every row identifier names a position of the value array.
pub open spec fn ids_in_bounds(values: Seq<u64>, row_ids: Seq<u32>) -> bool {
    forall|i: int| 0 <= i < row_ids.len() ==> (#[trigger] row_ids[i] as int) < values.len()
}

/// The values named by the row identifiers, in identifier order.
pub open spec fn selected(values: Seq<u64>, row_ids: Seq<u32>) -> Seq<u64> {
    Seq::new(row_ids.len(), |i: int| values[row_ids[i] as int])
}

/// The values whose selection flag is set, in array order.
pub open spec fn masked(values: Seq<u64>, selection: Seq<bool>) -> Seq<u64>
    decreases values.len(),
{
    if values.len() == 0 || selection.len() == 0 {
        Seq::empty()
    } else {
        let prefix = masked(values.drop_last(), selection.drop_last());
        if selection.last() {
            prefix.push(values.last())
        } else {
            prefix
        }
    }
}

/// Arithmetic sum of a sequence, as an unbounded integer.
pub open spec fn seq_sum(s: Seq<u64>) -> int
    decreases s.len(),
{
    if s.len() == 0 {
        0
    } else {
        seq_sum(s.drop_last()) + s.last()
    }
}

/// The larger of two values under the unsigned order.
pub open spec fn max_u64(a: u64, b: u64) -> u64 {
    if a >= b {
        a
    } else {
        b
    }
}

/// Running maximum of a non-empty sequence, scanned left to right.
pub open spec fn seq_max(s: Seq<u64>) -> u64
    decreases s.len(),
{
    if s.len() <= 1 {
        s[0]
    } else {
        max_u64(seq_max(s.drop_last()), s.last())
    }
}

/// `m` is an element of `s` and no element of `s` exceeds it.
pub open spec fn is_max_of(s: Seq<u64>, m: u64) -> bool {
    &&& s.contains(m)
    &&& forall|i: int| 0 <= i < s.len() ==> #[trigger] s[i] <= m
}

/// Number of full lane groups in a sequence of length `n`.
pub open spec fn full_groups(n: int) -> int {
    n / 4
}

/// The four values gathered for the group that starts at identifier `start`.
pub open spec fn gather_group(values: Seq<u64>, row_ids: Seq<u32>, start: int) -> Seq<u64> {
    seq![
        values[row_ids[start] as int],
        values[row_ids[start + 1] as int],
        values[row_ids[start + 2] as int],
        values[row_ids[start + 3] as int],
    ]
}

/// The first `groups` gathered groups, stored one after the other.
pub open spec fn gathered_groups(values: Seq<u64>, row_ids: Seq<u32>, groups: int) -> Seq<u64>
    decreases groups,
{
    if groups <= 0 {
        Seq::empty()
    } else {
        gathered_groups(values, row_ids, groups - 1) + gather_group(
            values,
            row_ids,
            4 * (groups - 1),
        )
    }
}

/// Vectorized materialisation: every full group gathered, then the remainder
/// one value at a time.
pub open spec fn grouped_materialise(values: Seq<u64>, row_ids: Seq<u32>) -> Seq<u64> {
    let g = full_groups(row_ids.len() as int);
    gathered_groups(values, row_ids, g) + selected(values, row_ids).skip(4 * g)
}

/// Total that lane `lane` accumulates over the first `groups` groups.
pub open spec fn lane_sum(s: Seq<u64>, lane: int, groups: int) -> int
    decreases groups,
{
    if groups <= 0 {
        0
    } else {
        lane_sum(s, lane, groups - 1) + s[4 * (groups - 1) + lane]
    }
}

/// Vectorized sum: the four lane totals combined, then the remainder added.
pub open spec fn grouped_sum(s: Seq<u64>) -> int {
    let g = full_groups(s.len() as int);
    lane_sum(s, 0, g) + lane_sum(s, 1, g) + lane_sum(s, 2, g) + lane_sum(s, 3, g) + seq_sum(
        s.skip(4 * g),
    )
}

/// Maximum that lane `lane` holds after the first `groups` groups (at least one).
pub open spec fn lane_max(s: Seq<u64>, lane: int, groups: int) -> u64
    decreases groups,
{
    if groups <= 1 {
        s[lane]
    } else {
        max_u64(lane_max(s, lane, groups - 1), s[4 * (groups - 1) + lane])
    }
}

/// Vectorized maximum of a sequence of at least one full group: the lanes
/// reduced to one value, then the remainder folded in.
pub open spec fn grouped_max(s: Seq<u64>) -> u64 {
    let g = full_groups(s.len() as int);
    let lanes = max_u64(
        max_u64(lane_max(s, 0, g), lane_max(s, 1, g)),
        max_u64(lane_max(s, 2, g), lane_max(s, 3, g)),
    );
    if s.len() % 4 == 0 {
        lanes
    } else {
        max_u64(lanes, seq_max(s.skip(4 * g)))
    }
}

} // verus!
