//! Random draws, taken from the `rand` crate.

use crate::config::{Decimal, ONE};
use rand::distr::weighted::WeightedIndex;
use vstd::prelude::*;

verus! {

/// `rand::random_ratio` returns `true` with a chance of `numerator` in
/// `denominator`. It panics on a zero denominator and on a numerator above
/// the denominator. Its documentation guarantees `false` for a zero
/// numerator and `true` where numerator and denominator are equal; nothing
/// else is claimed of the outcome.
pub assume_specification[ rand::random_ratio ](numerator: u32, denominator: u32) -> (hit: bool)
    requires
        denominator > 0,
        numerator <= denominator,
    ensures
        numerator == 0 ==> !hit,
        numerator == denominator ==> hit,
;

/// A categorical distribution over positions, held as the
/// `rand::distr::weighted::WeightedIndex` that draws from it.
#[verifier::external_body]
pub struct WeightTable {
    inner: WeightedIndex<u64>,
}

/// The weights that a table was built from, in their order.
pub uninterp spec fn index_weights(dist: WeightTable) -> Seq<u64>;

/// The sum of the weights.
pub open spec fn weight_sum(weights: Seq<u64>) -> int
    decreases weights.len(),
{
    if weights.len() == 0 {
        0
    } else {
        weight_sum(weights.drop_last()) + weights.last()
    }
}

/// `WeightedIndex::new` builds the distribution over the positions of
/// `weights`. With weights of type `u64` it fails in three cases only: there
/// is no weight, the weights add up to zero, or their sum does not fit in a
/// `u64`. The table that it gives holds the weights as they were handed in.
#[verifier::external_body]
pub(crate) fn weighted_index(weights: &Vec<u64>) -> (built: Option<WeightTable>)
    ensures
        built.is_some() == (weights@.len() > 0 && 0 < weight_sum(weights@) && weight_sum(weights@)
            <= u64::MAX),
        built.is_some() ==> index_weights(built.unwrap()) == weights@,
{
    WeightedIndex::new(weights).ok().map(|inner| WeightTable { inner })
}

/// `WeightedIndex::sample`, with the generator of the thread, draws a
/// position with a chance in proportion to its weight. The position is one
/// of the table's, and a position of weight zero is never drawn; nothing
/// else is claimed of the outcome.
#[verifier::external_body]
pub(crate) fn sample_index(dist: &WeightTable) -> (index: usize)
    ensures
        index < index_weights(*dist).len(),
        index_weights(*dist)[index as int] > 0,
{
    rand::distr::Distribution::sample(&dist.inner, &mut rand::rng())
}

/// What a draw with chance `p` can give: never a hit when `p` is zero,
/// always one when `p` is one, either in between.
pub open spec fn may_draw(p: Decimal, hit: bool) -> bool {
    &&& p.billionths == 0 ==> !hit
    &&& p.billionths == ONE ==> hit
}

/// Draws a hit with the chance `p`, as `rand::random_ratio` does with `p`
/// in billionths.
pub fn chance(p: Decimal) -> (hit: bool)
    requires
        p.unit(),
    ensures
        may_draw(p, hit),
{
    rand::random_ratio(p.billionths as u32, ONE as u32)
}

} // verus!
