//! Laws relating the kernels to each other, stated over the model that their
//! contracts use.
use vstd::prelude::*;
use crate::model::{
    LANES, grouped_materialise, grouped_max, grouped_sum, ids_in_bounds, selected, seq_max, seq_sum,
};
use crate::filter_sum::checked_total;
use crate::lemmas::{lemma_grouped_materialise, lemma_grouped_max, lemma_grouped_sum};

verus! {

/// The scalar and vectorized strategies agree on every valid input: the
/// vectorized materialisation yields the scalar output, the lane-grouped sum
/// equals the running sum (so both overflow on the same inputs), and for a
/// selection of at least one full group the lane-grouped maximum equals the
/// running maximum (shorter selections take the scalar path outright).
pub proof fn law_strategies_agree(values: Seq<u64>, row_ids: Seq<u32>)
    requires
        ids_in_bounds(values, row_ids),
    ensures
        grouped_materialise(values, row_ids) == selected(values, row_ids),
        grouped_sum(selected(values, row_ids)) == seq_sum(selected(values, row_ids)),
        row_ids.len() >= LANES ==> grouped_max(selected(values, row_ids)) == seq_max(
            selected(values, row_ids),
        ),
{
    lemma_grouped_materialise(values, row_ids);
    lemma_grouped_sum(selected(values, row_ids));
    if row_ids.len() >= LANES {
        lemma_grouped_max(selected(values, row_ids));
    }
}

/// Materialisation keeps identifier order: output position `i` holds
/// `values[row_ids[i]]`, and rearranging the identifiers by any index map
/// rearranges the output the same way instead of sorting it.
pub proof fn law_order_preserved(values: Seq<u64>, row_ids: Seq<u32>, order: Seq<int>)
    requires
        ids_in_bounds(values, row_ids),
        forall|i: int| 0 <= i < order.len() ==> 0 <= #[trigger] order[i] < row_ids.len(),
    ensures
        forall|i: int|
            0 <= i < row_ids.len() ==> #[trigger] selected(values, row_ids)[i]
                == values[row_ids[i] as int],
        selected(values, Seq::new(order.len(), |i: int| row_ids[order[i]])) == Seq::new(
            order.len(),
            |i: int| selected(values, row_ids)[order[i]],
        ),
{
    assert(selected(values, Seq::new(order.len(), |i: int| row_ids[order[i]])) =~= Seq::new(
        order.len(),
        |i: int| selected(values, row_ids)[order[i]],
    ));
}

/// A total above `u64::MAX` is reported as an overflow, never as a value: the
/// checked scalar and vectorized sums, which both return
/// `checked_total(selected(..))`, give `None` on such inputs.
pub proof fn law_overflow_detected(values: Seq<u64>, row_ids: Seq<u32>)
    requires
        ids_in_bounds(values, row_ids),
        seq_sum(selected(values, row_ids)) > u64::MAX,
    ensures
        checked_total(selected(values, row_ids)) is None,
{
}

} // verus!
