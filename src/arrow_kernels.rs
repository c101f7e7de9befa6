//! The same three kernels computed by arrow's filter, sum and max kernels over
//! a boolean selection mask. They serve as an independent point of comparison
//! for the kernels of this crate.
use vstd::prelude::*;
use crate::model::{is_max_of, masked, seq_max, seq_sum};
use crate::lemmas::{lemma_max_unique, lemma_seq_max_is_max};

verus! {

#[verifier::external_type_specification]
#[verifier::external_body]
pub struct ExArrowError(arrow::error::ArrowError);

/// Relies on `arrow::compute::filter`: for a mask as long as the array, it
/// keeps, in array order, exactly the values whose flag is set. Arrays built
/// from plain vectors hold no nulls, and the result of filtering a `UInt64`
/// array is a `UInt64` array.
#[verifier::external_body]
fn arrow_filter(values: &[u64], selection: &[bool]) -> (r: Vec<u64>)
    requires
        values.len() == selection.len(),
    ensures
        r@ == masked(values@, selection@),
{
    let values = arrow::array::UInt64Array::from(values.to_vec());
    let selection = arrow::array::BooleanArray::from(selection.to_vec());
    let kept = arrow::compute::filter(&values, &selection).unwrap();
    kept.as_any().downcast_ref::<arrow::array::UInt64Array>().unwrap().values().to_vec()
}

/// Relies on `arrow::compute::sum_checked`: `Ok(None)` for an empty array
/// without nulls, an error when a partial sum overflows (which, for unsigned
/// values, happens exactly when the total does), and the sum otherwise.
#[verifier::external_body]
fn arrow_sum_checked(values: &[u64]) -> (r: Result<Option<u64>, arrow::error::ArrowError>)
    ensures
        match r {
            Ok(None) => values@.len() == 0,
            Ok(Some(s)) => values@.len() > 0 && s == seq_sum(values@),
            Err(_) => seq_sum(values@) > u64::MAX,
        },
{
    let values = arrow::array::UInt64Array::from(values.to_vec());
    arrow::compute::sum_checked(&values)
}

/// Relies on `arrow::compute::max`: `None` for an empty array without nulls,
/// and otherwise the largest value under the natural order of `u64`.
#[verifier::external_body]
fn arrow_max(values: &[u64]) -> (r: Option<u64>)
    ensures
        r is None <==> values@.len() == 0,
        r matches Some(m) ==> is_max_of(values@, m),
{
    let values = arrow::array::UInt64Array::from(values.to_vec());
    arrow::compute::max(&values)
}

/// The values whose selection flag is set, in array order, as arrow's filter
/// kernel produces them. The mask must be as long as the value array.
pub fn filter_materialise_values_arrow(values: &[u64], selection: &[bool]) -> (r: Vec<u64>)
    requires
        values.len() == selection.len(),
    ensures
        r@ == masked(values@, selection@),
{
    arrow_filter(values, selection)
}

/// Sum of the values whose selection flag is set: arrow filters, then sums.
/// The mask must be as long as the value array and the total must fit in 64
/// bits. An empty selection sums to zero.
pub fn filter_sum_arrow(values: &[u64], selection: &[bool]) -> (r: u64)
    requires
        values.len() == selection.len(),
        seq_sum(masked(values@, selection@)) <= u64::MAX,
    ensures
        r == seq_sum(masked(values@, selection@)),
{
    let kept = arrow_filter(values, selection);
    match arrow_sum_checked(kept.as_slice()) {
        Ok(Some(total)) => total,
        Ok(None) => 0,
        Err(_) => 0,
    }
}

/// Maximum of the values whose selection flag is set: arrow filters, then
/// takes the maximum. The mask must be as long as the value array and select
/// at least one value.
pub fn filter_max_arrow(values: &[u64], selection: &[bool]) -> (r: u64)
    requires
        values.len() == selection.len(),
        masked(values@, selection@).len() > 0,
    ensures
        r == seq_max(masked(values@, selection@)),
        is_max_of(masked(values@, selection@), r),
{
    let kept = arrow_filter(values, selection);
    let ghost kept_view = kept@;
    proof {
        lemma_seq_max_is_max(kept_view);
    }
    match arrow_max(kept.as_slice()) {
        Some(m) => {
            proof {
                lemma_max_unique(kept_view, m, seq_max(kept_view));
            }
            m
        },
        None => kept[0],
    }
}

} // verus!
