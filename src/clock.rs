use vstd::prelude::*;

verus! {

/// A clock offered for packing: its weight, in whole units, and its value.
///
/// Clocks compare by value: two clocks with the same weight and value are
/// the same item.
#[derive(Clone, Copy, Debug, PartialEq, Eq, Hash, Structural)]
pub struct Clock {
    pub weight: u64,
    pub value: u64,
}

impl Clock {
    /// Builds a clock, rejecting a weight of zero.
    pub fn new(weight: u64, value: u64) -> (r: Option<Clock>)
        ensures
            r == (if weight > 0 {
                Some(Clock { weight, value })
            } else {
                None::<Clock>
            }),
    {
        if weight > 0 {
            Some(Clock { weight, value })
        } else {
            None
        }
    }
}

/// Total weight of a sequence of clocks.
pub open spec fn weight_sum(s: Seq<Clock>) -> int
    decreases s.len(),
{
    if s.len() == 0 {
        0
    } else {
        weight_sum(s.drop_last()) + s.last().weight
    }
}

/// The weight of a concatenation is the sum of the parts' weights.
pub proof fn lemma_weight_sum_concat(s: Seq<Clock>, t: Seq<Clock>)
    ensures
        weight_sum(s + t) == weight_sum(s) + weight_sum(t),
    decreases t.len(),
{
    if t.len() == 0 {
        assert(s + t =~= s);
    } else {
        lemma_weight_sum_concat(s, t.drop_last());
        assert((s + t).drop_last() =~= s + t.drop_last());
    }
}

/// Weights are never negative.
pub proof fn lemma_weight_sum_nonneg(s: Seq<Clock>)
    ensures
        weight_sum(s) >= 0,
    decreases s.len(),
{
    if s.len() > 0 {
        lemma_weight_sum_nonneg(s.drop_last());
    }
}

/// Whether the clocks of `solution` weigh at most `capacity` together.
///
/// The total is summed from scratch; it stops as soon as the running sum
/// passes the capacity, so it never overflows.
pub fn fits(solution: &[Clock], capacity: u64) -> (r: bool)
    ensures
        r == (weight_sum(solution@) <= capacity),
{
    let mut total: u64 = 0;
    let mut i: usize = 0;
    while i < solution.len()
        invariant
            i <= solution@.len(),
            total == weight_sum(solution@.subrange(0, i as int)),
            total <= capacity,
        decreases solution@.len() - i,
    {
        let w = solution[i].weight;
        assert(solution@.subrange(0, i + 1).drop_last() =~= solution@.subrange(0, i as int));
        if w > capacity - total {
            proof {
                lemma_weight_sum_concat(
                    solution@.subrange(0, i + 1),
                    solution@.subrange(i + 1, solution@.len() as int),
                );
                lemma_weight_sum_nonneg(solution@.subrange(i + 1, solution@.len() as int));
                assert(solution@.subrange(0, i + 1) + solution@.subrange(
                    i + 1,
                    solution@.len() as int,
                ) =~= solution@);
            }
            return false;
        }
        total = total + w;
        i = i + 1;
    }
    assert(solution@.subrange(0, i as int) =~= solution@);
    true
}

} // verus!
