//! Facts about the model: how the lane-grouped views relate to the plain
//! sequence, and the laws that tie the strategies together.
use vstd::prelude::*;
use crate::model::{
    full_groups, gathered_groups, grouped_materialise, grouped_max, grouped_sum, is_max_of, lane_max,
    lane_sum, max_u64, selected, seq_max, seq_sum,
};

verus! {

/// The first `g` gathered groups are the first `4 * g` selected values.
pub proof fn lemma_gathered_groups_prefix(values: Seq<u64>, row_ids: Seq<u32>, g: int)
    requires
        0 <= g,
        4 * g <= row_ids.len(),
    ensures
        gathered_groups(values, row_ids, g) == selected(values, row_ids).take(4 * g),
    decreases g,
{
    if g > 0 {
        lemma_gathered_groups_prefix(values, row_ids, g - 1);
        assert(gathered_groups(values, row_ids, g) =~= selected(values, row_ids).take(4 * g));
    } else {
        assert(gathered_groups(values, row_ids, g) =~= selected(values, row_ids).take(4 * g));
    }
}

/// Materialising through full groups plus a scalar remainder yields exactly
/// the selected values in identifier order.
pub proof fn lemma_grouped_materialise(values: Seq<u64>, row_ids: Seq<u32>)
    ensures
        grouped_materialise(values, row_ids) == selected(values, row_ids),
{
    let g = full_groups(row_ids.len() as int);
    let sel = selected(values, row_ids);
    lemma_gathered_groups_prefix(values, row_ids, g);
    assert(sel.take(4 * g) + sel.skip(4 * g) =~= sel);
}

/// A sum of unsigned values is never negative.
pub proof fn lemma_seq_sum_nonneg(s: Seq<u64>)
    ensures
        seq_sum(s) >= 0,
    decreases s.len(),
{
    if s.len() > 0 {
        lemma_seq_sum_nonneg(s.drop_last());
    }
}

/// Extending a prefix by one element adds that element to its sum.
pub proof fn lemma_seq_sum_take_step(s: Seq<u64>, i: int)
    requires
        0 <= i < s.len(),
    ensures
        seq_sum(s.take(i + 1)) == seq_sum(s.take(i)) + s[i],
{
    assert(s.take(i + 1).drop_last() =~= s.take(i));
}

/// The sum of a sequence splits at any point into the sums of the two parts.
pub proof fn lemma_seq_sum_split(s: Seq<u64>, n: int)
    requires
        0 <= n <= s.len(),
    ensures
        seq_sum(s) == seq_sum(s.take(n)) + seq_sum(s.skip(n)),
    decreases s.len(),
{
    if n == s.len() {
        assert(s.take(n) =~= s);
        assert(s.skip(n) =~= Seq::<u64>::empty());
    } else {
        let t = s.drop_last();
        lemma_seq_sum_split(t, n);
        assert(t.take(n) =~= s.take(n));
        assert(s.skip(n).drop_last() =~= t.skip(n));
    }
}

/// A prefix sums to no more than the whole sequence.
pub proof fn lemma_seq_sum_prefix_le(s: Seq<u64>, n: int)
    requires
        0 <= n <= s.len(),
    ensures
        seq_sum(s.take(n)) <= seq_sum(s),
{
    lemma_seq_sum_split(s, n);
    lemma_seq_sum_nonneg(s.skip(n));
}

/// The four lane totals over the first `g` groups add up to the sum of the
/// first `4 * g` values.
pub proof fn lemma_lane_sums_prefix(s: Seq<u64>, g: int)
    requires
        0 <= g,
        4 * g <= s.len(),
    ensures
        lane_sum(s, 0, g) + lane_sum(s, 1, g) + lane_sum(s, 2, g) + lane_sum(s, 3, g) == seq_sum(
            s.take(4 * g),
        ),
    decreases g,
{
    if g > 0 {
        let b = 4 * (g - 1);
        lemma_lane_sums_prefix(s, g - 1);
        lemma_seq_sum_take_step(s, b);
        lemma_seq_sum_take_step(s, b + 1);
        lemma_seq_sum_take_step(s, b + 2);
        lemma_seq_sum_take_step(s, b + 3);
    } else {
        assert(s.take(0) =~= Seq::<u64>::empty());
    }
}

/// Summing lane by lane and then adding the remainder gives the plain sum.
pub proof fn lemma_grouped_sum(s: Seq<u64>)
    ensures
        grouped_sum(s) == seq_sum(s),
{
    let g = full_groups(s.len() as int);
    lemma_lane_sums_prefix(s, g);
    lemma_seq_sum_split(s, 4 * g);
}

/// A lane's running total only grows from group to group.
pub proof fn lemma_lane_sum_monotone(s: Seq<u64>, lane: int, g: int, h: int)
    requires
        0 <= lane < 4,
        0 <= g <= h,
        4 * h <= s.len(),
    ensures
        0 <= lane_sum(s, lane, g) <= lane_sum(s, lane, h),
    decreases h,
{
    if g < h {
        lemma_lane_sum_monotone(s, lane, g, h - 1);
    } else if g > 0 {
        lemma_lane_sum_monotone(s, lane, g - 1, g - 1);
    }
}

/// No lane's running total exceeds the sum of the whole sequence.
pub proof fn lemma_lane_sum_le_total(s: Seq<u64>, lane: int, g: int)
    requires
        0 <= lane < 4,
        0 <= g <= full_groups(s.len() as int),
    ensures
        0 <= lane_sum(s, lane, g) <= seq_sum(s),
{
    let n = full_groups(s.len() as int);
    lemma_lane_sum_monotone(s, 0, n, n);
    lemma_lane_sum_monotone(s, 1, n, n);
    lemma_lane_sum_monotone(s, 2, n, n);
    lemma_lane_sum_monotone(s, 3, n, n);
    lemma_lane_sum_monotone(s, lane, g, n);
    lemma_lane_sums_prefix(s, n);
    lemma_seq_sum_prefix_le(s, 4 * n);
}

/// The running maximum of a non-empty sequence is an element of it that no
/// element exceeds.
pub proof fn lemma_seq_max_is_max(s: Seq<u64>)
    requires
        s.len() > 0,
    ensures
        is_max_of(s, seq_max(s)),
    decreases s.len(),
{
    if s.len() == 1 {
        assert(s[0] == seq_max(s));
    } else {
        let t = s.drop_last();
        lemma_seq_max_is_max(t);
        let j = choose|j: int| 0 <= j < t.len() && t[j] == seq_max(t);
        if seq_max(t) >= s.last() {
            assert(s[j] == seq_max(s));
        } else {
            assert(s[s.len() - 1] == seq_max(s));
        }
        assert forall|i: int| 0 <= i < s.len() implies #[trigger] s[i] <= seq_max(s) by {
            if i < s.len() - 1 {
                assert(s[i] == t[i]);
            }
        }
    }
}

/// A sequence has at most one maximum.
pub proof fn lemma_max_unique(s: Seq<u64>, a: u64, b: u64)
    requires
        is_max_of(s, a),
        is_max_of(s, b),
    ensures
        a == b,
{
    let i = choose|i: int| 0 <= i < s.len() && s[i] == a;
    let j = choose|j: int| 0 <= j < s.len() && s[j] == b;
    assert(s[i] <= b);
    assert(s[j] <= a);
}

/// A lane's running maximum is one of the values that lane saw, and no value
/// that lane saw exceeds it.
pub proof fn lemma_lane_max(s: Seq<u64>, lane: int, g: int)
    requires
        0 <= lane < 4,
        1 <= g,
        4 * g <= s.len(),
    ensures
        exists|h: int| 0 <= h < g && #[trigger] s[4 * h + lane] == lane_max(s, lane, g),
        forall|h: int| 0 <= h < g ==> #[trigger] s[4 * h + lane] <= lane_max(s, lane, g),
    decreases g,
{
    if g == 1 {
        assert(s[4 * 0 + lane] == lane_max(s, lane, g));
    } else {
        lemma_lane_max(s, lane, g - 1);
        let h = choose|h: int| 0 <= h < g - 1 && #[trigger] s[4 * h + lane] == lane_max(s, lane, g - 1);
        if lane_max(s, lane, g - 1) >= s[4 * (g - 1) + lane] {
            assert(s[4 * h + lane] == lane_max(s, lane, g));
        } else {
            assert(s[4 * (g - 1) + lane] == lane_max(s, lane, g));
        }
        assert forall|h: int| 0 <= h < g implies #[trigger] s[4 * h + lane] <= lane_max(
            s,
            lane,
            g,
        ) by {
            if h < g - 1 {
                assert(s[4 * h + lane] <= lane_max(s, lane, g - 1));
            }
        }
    }
}

/// Reducing the lanes and folding in the remainder is the maximum of the
/// whole sequence.
pub proof fn lemma_grouped_max_is_max(s: Seq<u64>)
    requires
        s.len() >= 4,
    ensures
        is_max_of(s, grouped_max(s)),
{
    let g = full_groups(s.len() as int);
    let rest = s.skip(4 * g);
    lemma_lane_max(s, 0, g);
    lemma_lane_max(s, 1, g);
    lemma_lane_max(s, 2, g);
    lemma_lane_max(s, 3, g);
    let m = grouped_max(s);
    let lanes = max_u64(
        max_u64(lane_max(s, 0, g), lane_max(s, 1, g)),
        max_u64(lane_max(s, 2, g), lane_max(s, 3, g)),
    );
    assert(s.contains(lanes)) by {
        if lanes == lane_max(s, 0, g) {
            let h = choose|h: int| 0 <= h < g && #[trigger] s[4 * h + 0] == lane_max(s, 0, g);
            assert(s[4 * h + 0] == lanes);
        } else if lanes == lane_max(s, 1, g) {
            let h = choose|h: int| 0 <= h < g && #[trigger] s[4 * h + 1] == lane_max(s, 1, g);
            assert(s[4 * h + 1] == lanes);
        } else if lanes == lane_max(s, 2, g) {
            let h = choose|h: int| 0 <= h < g && #[trigger] s[4 * h + 2] == lane_max(s, 2, g);
            assert(s[4 * h + 2] == lanes);
        } else {
            let h = choose|h: int| 0 <= h < g && #[trigger] s[4 * h + 3] == lane_max(s, 3, g);
            assert(s[4 * h + 3] == lanes);
        }
    }
    if s.len() % 4 != 0 {
        lemma_seq_max_is_max(rest);
        let j = choose|j: int| 0 <= j < rest.len() && rest[j] == seq_max(rest);
        assert(s[4 * g + j] == rest[j]);
    }
    assert forall|i: int| 0 <= i < s.len() implies #[trigger] s[i] <= m by {
        if i < 4 * g {
            let h = i / 4;
            let k = i % 4;
            assert(i == 4 * h + k);
            assert(0 <= h < g);
            if k == 0 {
                assert(s[4 * h + 0] <= lane_max(s, 0, g));
            } else if k == 1 {
                assert(s[4 * h + 1] <= lane_max(s, 1, g));
            } else if k == 2 {
                assert(s[4 * h + 2] <= lane_max(s, 2, g));
            } else {
                assert(s[4 * h + 3] <= lane_max(s, 3, g));
            }
        } else {
            assert(s[i] == rest[i - 4 * g]);
        }
    }
}

/// Reducing lane by lane gives the same maximum as a left-to-right scan.
pub proof fn lemma_grouped_max(s: Seq<u64>)
    requires
        s.len() >= 4,
    ensures
        grouped_max(s) == seq_max(s),
{
    lemma_grouped_max_is_max(s);
    lemma_seq_max_is_max(s);
    lemma_max_unique(s, grouped_max(s), seq_max(s));
}

} // verus!
