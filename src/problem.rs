use vstd::prelude::*;

use crate::clock::{fits, lemma_weight_sum_concat, lemma_weight_sum_nonneg, weight_sum, Clock};
use crate::combination_set::CombinationSet;

verus! {

/// The clocks on offer, in the order they were added. The same clock may
/// appear more than once.
pub struct Knapsack {
    pub contents: Vec<Clock>,
}

impl Knapsack {
    /// A knapsack offering no clock.
    pub fn empty() -> (r: Knapsack)
        ensures
            r.contents@ == Seq::<Clock>::empty(),
    {
        Knapsack { contents: Vec::new() }
    }

    /// A knapsack offering `clocks`, in that order.
    pub fn from_clocks(clocks: &[Clock]) -> (r: Knapsack)
        ensures
            r.contents@ == clocks@,
    {
        Knapsack { contents: vstd::slice::slice_to_vec(clocks) }
    }
}

impl Default for Knapsack {
    fn default() -> (r: Knapsack)
        ensures
            r.contents@ == Seq::<Clock>::empty(),
    {
        Knapsack::empty()
    }
}

/// A search for the combinations of the clocks in `knapsack` that weigh at
/// most `max_weight` together.
pub struct Problem {
    pub max_weight: u64,
    pub knapsack: Knapsack,
}

/// Whether `s` can be formed by picking clocks of `items` in their order,
/// each position at most once.
pub open spec fn is_subsequence(s: Seq<Clock>, items: Seq<Clock>) -> bool
    decreases items.len(),
{
    if items.len() == 0 {
        s.len() == 0
    } else {
        is_subsequence(s, items.drop_first()) || (s.len() > 0 && s[0] == items[0]
            && is_subsequence(s.drop_first(), items.drop_first()))
    }
}

/// Every non-empty pick of clocks from `items`, in order, that weighs at
/// most `capacity`.
pub open spec fn combinations(items: Seq<Clock>, capacity: int) -> Set<Seq<Clock>> {
    Set::new(
        |s: Seq<Clock>| s.len() > 0 && is_subsequence(s, items) && weight_sum(s) <= capacity,
    )
}

/// Whether `s` is `prefix` followed by a non-empty pick of clocks from
/// `items`, in order, and weighs at most `capacity` as a whole.
pub open spec fn is_extension(
    s: Seq<Clock>,
    prefix: Seq<Clock>,
    items: Seq<Clock>,
    capacity: int,
) -> bool {
    &&& prefix.len() < s.len()
    &&& s.subrange(0, prefix.len() as int) == prefix
    &&& is_subsequence(s.subrange(prefix.len() as int, s.len() as int), items)
    &&& weight_sum(s) <= capacity
}

/// All the ways of growing `prefix` with clocks of `items` within `capacity`.
pub open spec fn extensions(items: Seq<Clock>, prefix: Seq<Clock>, capacity: int) -> Set<
    Seq<Clock>,
> {
    Set::new(|s: Seq<Clock>| is_extension(s, prefix, items, capacity))
}

/// The empty pick is a subsequence of anything.
pub proof fn lemma_empty_is_subsequence(items: Seq<Clock>)
    ensures
        is_subsequence(Seq::<Clock>::empty(), items),
    decreases items.len(),
{
    if items.len() > 0 {
        lemma_empty_is_subsequence(items.drop_first());
    }
}

/// A sequence weighs the sum of its first `k` clocks and the rest.
proof fn lemma_weight_split(s: Seq<Clock>, k: int)
    requires
        0 <= k <= s.len(),
    ensures
        weight_sum(s) == weight_sum(s.subrange(0, k)) + weight_sum(s.subrange(k, s.len() as int)),
{
    lemma_weight_sum_concat(s.subrange(0, k), s.subrange(k, s.len() as int));
    assert(s.subrange(0, k) + s.subrange(k, s.len() as int) =~= s);
}

/// Nothing grows a prefix when no clock is left.
proof fn lemma_extensions_of_nothing(prefix: Seq<Clock>, capacity: int)
    ensures
        extensions(Seq::<Clock>::empty(), prefix, capacity) == Set::<Seq<Clock>>::empty(),
{
    assert(extensions(Seq::<Clock>::empty(), prefix, capacity) =~= Set::<Seq<Clock>>::empty());
}

/// Growing `prefix` from `items` either takes the first clock, and then
/// grows the longer prefix from the rest, or skips it.
proof fn lemma_extensions_step(items: Seq<Clock>, prefix: Seq<Clock>, capacity: int)
    requires
        items.len() > 0,
    ensures
        extensions(items, prefix, capacity) == (if weight_sum(prefix.push(items[0])) <= capacity {
            set![prefix.push(items[0])] + extensions(
                items.drop_first(),
                prefix.push(items[0]),
                capacity,
            )
        } else {
            Set::<Seq<Clock>>::empty()
        }) + extensions(items.drop_first(), prefix, capacity),
{
    let a = items[0];
    let tail = items.drop_first();
    let taken = prefix.push(a);
    let lhs = extensions(items, prefix, capacity);
    let rhs = (if weight_sum(taken) <= capacity {
        set![taken] + extensions(tail, taken, capacity)
    } else {
        Set::<Seq<Clock>>::empty()
    }) + extensions(tail, prefix, capacity);
    assert forall|s: Seq<Clock>| lhs.contains(s) implies rhs.contains(s) by {
        let n = prefix.len() as int;
        let u = s.subrange(n, s.len() as int);
        if !is_subsequence(u, tail) {
            assert(u[0] == a && is_subsequence(u.drop_first(), tail));
            assert(s.subrange(0, n + 1) =~= taken);
            lemma_weight_split(s, n + 1);
            lemma_weight_sum_nonneg(s.subrange(n + 1, s.len() as int));
            if s.len() == n + 1 {
                assert(s =~= taken);
            } else {
                assert(s.subrange(n + 1, s.len() as int) =~= u.drop_first());
                assert(is_extension(s, taken, tail, capacity));
            }
        }
    }
    assert forall|s: Seq<Clock>| rhs.contains(s) implies lhs.contains(s) by {
        let n = prefix.len() as int;
        let u = s.subrange(n, s.len() as int);
        if extensions(tail, prefix, capacity).contains(s) {
            assert(is_subsequence(u, items));
        } else if s == taken {
            lemma_empty_is_subsequence(tail);
            assert(s.subrange(0, n) =~= prefix);
            assert(u.drop_first() =~= Seq::<Clock>::empty());
            assert(is_subsequence(u, items));
        } else {
            assert(s.subrange(0, n + 1) == taken);
            assert(s.subrange(0, n) =~= s.subrange(0, n + 1).subrange(0, n));
            assert(u.drop_first() =~= s.subrange(n + 1, s.len() as int));
            assert(taken.subrange(0, n) =~= prefix);
            assert(u[0] == s.subrange(0, n + 1)[n]);
            assert(is_subsequence(u, items));
        }
        assert(is_extension(s, prefix, items, capacity));
    }
    assert(lhs =~= rhs);
}

impl Problem {
    /// Adds to `accumulator` every way of growing `current_solution` with
    /// clocks picked in order from `clocks` that weighs at most `max_weight`.
    ///
    /// Each candidate is weighed as a whole. A candidate that is too heavy is
    /// not grown further, since weights are never negative; the clock is
    /// still skipped in the other branch, so every pick of the rest is seen.
    pub fn get_all_combinations(
        &self,
        clocks: &[Clock],
        current_solution: Vec<Clock>,
        accumulator: CombinationSet,
    ) -> (r: CombinationSet)
        ensures
            r@ == accumulator@ + extensions(
                clocks@,
                current_solution@,
                self.max_weight as int,
            ),
        decreases clocks@.len(),
    {
        if clocks.len() == 0 {
            proof {
                lemma_extensions_of_nothing(current_solution@, self.max_weight as int);
                assert(accumulator@ + Set::<Seq<Clock>>::empty() =~= accumulator@);
            }
            return accumulator;
        }
        let a = clocks[0];
        let tail = vstd::slice::slice_subrange(clocks, 1, clocks.len());
        assert(tail@ =~= clocks@.drop_first());
        let mut updated = vstd::slice::slice_to_vec(current_solution.as_slice());
        updated.push(a);
        let mut acc = accumulator;
        let ghost start = acc@;
        if fits(updated.as_slice(), self.max_weight) {
            acc.insert(vstd::slice::slice_to_vec(updated.as_slice()));
            acc = self.get_all_combinations(tail, updated, acc);
        }
        acc = self.get_all_combinations(tail, current_solution, acc);
        proof {
            lemma_extensions_step(clocks@, current_solution@, self.max_weight as int);
            assert(acc@ =~= start + extensions(
                clocks@,
                current_solution@,
                self.max_weight as int,
            ));
        }
        acc
    }
}

/// Every non-empty pick of clocks from `items`, kept in their order, whose
/// total weight is at most `capacity`.
pub fn generate(items: &[Clock], capacity: u64) -> (r: CombinationSet)
    ensures
        r@ == combinations(items@, capacity as int),
{
    let problem = Problem { max_weight: capacity, knapsack: Knapsack::from_clocks(items) };
    let r = problem.get_all_combinations(
        problem.knapsack.contents.as_slice(),
        Vec::new(),
        CombinationSet::new(),
    );
    proof {
        let found = extensions(items@, Seq::<Clock>::empty(), capacity as int);
        assert forall|s: Seq<Clock>| #[trigger] found.contains(s) == combinations(
            items@,
            capacity as int,
        ).contains(s) by {
            assert(s.subrange(0, s.len() as int) =~= s);
            assert(s.subrange(0, 0) =~= Seq::<Clock>::empty());
        }
        assert(r@ =~= combinations(items@, capacity as int));
    }
    r
}

} // verus!
