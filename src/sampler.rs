use vstd::prelude::*;

verus! {

#[verifier::external_type_specification]
#[verifier::external_body]
pub struct ExWeightedError(rand::distributions::WeightedError);

/// The sum of the weights of `(index, weight)` pairs.
pub open spec fn pair_total(ps: Seq<(usize, u64)>) -> nat
    decreases ps.len(),
{
    if ps.len() == 0 {
        0
    } else {
        pair_total(ps.drop_last()) + ps.last().1 as nat
    }
}

/// Relies on rand's `SliceRandom::choose_weighted` with `thread_rng`: it picks
/// one pair with probability proportional to its weight, and fails exactly
/// when there is no pair or all weights are zero. A pair of weight zero is
/// never picked (the pick is the first pair whose running total exceeds a
/// uniform draw below the total). The total must fit in a `u64`: the running
/// sum is kept in one.
#[verifier::external_body]
pub(crate) fn choose_weighted_index(pairs: &Vec<(usize, u64)>) -> (r: Result<
    usize,
    rand::distributions::WeightedError,
>)
    requires
        pair_total(pairs@) <= u64::MAX,
    ensures
        r is Ok <==> (pairs@.len() > 0 && pair_total(pairs@) > 0),
        r matches Ok(i) ==> exists|k: int|
            0 <= k < pairs@.len() && (#[trigger] pairs@[k]).0 == i && pairs@[k].1 > 0,
{
    rand::seq::SliceRandom::choose_weighted(pairs.as_slice(), &mut rand::thread_rng(), |p| p.1).map(
        |p| p.0,
    )
}

} // verus!
