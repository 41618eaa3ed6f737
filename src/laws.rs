use vstd::prelude::*;

use crate::clock::{weight_sum, Clock};
use crate::combination_set::CombinationSet;
use crate::problem::{combinations, is_subsequence};

verus! {

/// Every clock of a subsequence is a clock of the sequence it was picked from.
pub proof fn lemma_subsequence_clocks_from(s: Seq<Clock>, items: Seq<Clock>, i: int)
    requires
        is_subsequence(s, items),
        0 <= i < s.len(),
    ensures
        items.contains(s[i]),
    decreases items.len(),
{
    if items.len() > 0 {
        let tail = items.drop_first();
        if is_subsequence(s, tail) {
            lemma_subsequence_clocks_from(s, tail, i);
        } else if i > 0 {
            lemma_subsequence_clocks_from(s.drop_first(), tail, i - 1);
        }
        if tail.contains(s[i]) {
            let j = choose|j: int| 0 <= j < tail.len() && tail[j] == s[i];
            assert(items[j + 1] == s[i]);
        } else {
            assert(items[0] == s[i]);
        }
    }
}

/// With no clocks on offer there is no combination, whatever the capacity.
pub proof fn lemma_no_clocks_no_combinations(capacity: u64)
    ensures
        combinations(Seq::<Clock>::empty(), capacity as int) == Set::<Seq<Clock>>::empty(),
{
    assert(combinations(Seq::<Clock>::empty(), capacity as int) =~= Set::<Seq<Clock>>::empty());
}

/// A capacity of zero admits no combination when every clock weighs
/// something.
pub proof fn lemma_zero_capacity_no_combinations(items: Seq<Clock>)
    requires
        items.len() > 0,
        forall|i: int| 0 <= i < items.len() ==> #[trigger] items[i].weight > 0,
    ensures
        combinations(items, 0) == Set::<Seq<Clock>>::empty(),
{
    assert forall|s: Seq<Clock>| !#[trigger] combinations(items, 0).contains(s) by {
        if s.len() > 0 && is_subsequence(s, items) {
            lemma_subsequence_clocks_from(s, items, s.len() - 1);
            crate::clock::lemma_weight_sum_nonneg(s.drop_last());
        }
    }
    assert(combinations(items, 0) =~= Set::<Seq<Clock>>::empty());
}

/// The only picks from a single clock are nothing and the clock itself.
proof fn lemma_single_clock_picks(c: Clock, s: Seq<Clock>)
    ensures
        is_subsequence(s, seq![c]) == (s.len() == 0 || s == seq![c]),
{
    let items = seq![c];
    assert(items.drop_first() =~= Seq::<Clock>::empty());
    reveal_with_fuel(is_subsequence, 2);
    if s.len() == 1 && s[0] == c {
        assert(s =~= seq![c]);
    }
    if s == seq![c] {
        assert(s.drop_first() =~= Seq::<Clock>::empty());
    }
}

/// A single clock weighs its own weight.
proof fn lemma_single_clock_weight(c: Clock)
    ensures
        weight_sum(seq![c]) == c.weight,
{
    assert(seq![c].drop_last() =~= Seq::<Clock>::empty());
    assert(weight_sum(Seq::<Clock>::empty()) == 0);
}

/// A single clock that fits gives exactly one combination: the clock alone.
pub proof fn lemma_single_clock_fits(c: Clock, capacity: u64)
    requires
        c.weight <= capacity,
    ensures
        combinations(seq![c], capacity as int) == set![seq![c]],
{
    assert forall|s: Seq<Clock>| #[trigger] combinations(seq![c], capacity as int).contains(s)
        == set![seq![c]].contains(s) by {
        lemma_single_clock_picks(c, s);
        lemma_single_clock_weight(c);
    }
    assert(combinations(seq![c], capacity as int) =~= set![seq![c]]);
}

/// A single clock that is too heavy gives no combination.
pub proof fn lemma_single_clock_too_heavy(c: Clock, capacity: u64)
    requires
        c.weight > capacity,
    ensures
        combinations(seq![c], capacity as int) == Set::<Seq<Clock>>::empty(),
{
    assert forall|s: Seq<Clock>| !#[trigger] combinations(seq![c], capacity as int).contains(
        s,
    ) by {
        lemma_single_clock_picks(c, s);
        lemma_single_clock_weight(c);
    }
    assert(combinations(seq![c], capacity as int) =~= Set::<Seq<Clock>>::empty());
}

/// Two searches over the same clocks and capacity find the same set,
/// however each stores its combinations.
pub proof fn lemma_same_inputs_same_combinations(
    items: Seq<Clock>,
    capacity: u64,
    first: CombinationSet,
    second: CombinationSet,
)
    requires
        first@ == combinations(items, capacity as int),
        second@ == combinations(items, capacity as int),
    ensures
        first@ == second@,
{
}

/// Raising the capacity never loses a combination.
pub proof fn lemma_combinations_monotonic(items: Seq<Clock>, low: u64, high: u64)
    requires
        low <= high,
    ensures
        combinations(items, low as int).subset_of(combinations(items, high as int)),
{
}

/// Every combination weighs at most the capacity.
pub proof fn lemma_combinations_within_capacity(items: Seq<Clock>, capacity: u64, s: Seq<Clock>)
    requires
        combinations(items, capacity as int).contains(s),
    ensures
        weight_sum(s) <= capacity,
{
}

/// The empty pick is never a combination.
pub proof fn lemma_no_empty_combination(items: Seq<Clock>, capacity: u64)
    ensures
        !combinations(items, capacity as int).contains(Seq::<Clock>::empty()),
{
}

} // verus!
