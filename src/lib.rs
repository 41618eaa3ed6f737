//! Enumeration of every combination of weighted clocks that fits within a
//! weight capacity.
//!
//! A combination is a non-empty pick of the clocks on offer, kept in their
//! order; it fits when its clocks weigh at most the capacity together.
mod clock;
mod combination_set;
mod laws;
mod problem;

pub use clock::{fits, lemma_weight_sum_concat, lemma_weight_sum_nonneg, weight_sum, Clock};
pub use combination_set::{same_clocks, CombinationSet};
pub use laws::{
    lemma_combinations_monotonic, lemma_combinations_within_capacity, lemma_no_clocks_no_combinations,
    lemma_no_empty_combination, lemma_same_inputs_same_combinations, lemma_single_clock_fits,
    lemma_single_clock_too_heavy, lemma_subsequence_clocks_from, lemma_zero_capacity_no_combinations,
};
pub use problem::{
    combinations, extensions, generate, is_extension, is_subsequence, lemma_empty_is_subsequence,
    Knapsack, Problem,
};
