use clock_knapsack::{generate, Clock, CombinationSet, Knapsack, Problem};

fn clock(weight: u64, value: u64) -> Clock {
    Clock::new(weight, value).unwrap()
}

fn sorted(set: &CombinationSet) -> Vec<Vec<Clock>> {
    let mut all: Vec<Vec<Clock>> = set.solutions().to_vec();
    all.sort_by_key(|s| s.iter().map(|c| (c.weight, c.value)).collect::<Vec<_>>());
    all
}

fn total(s: &[Clock]) -> u64 {
    s.iter().map(|c| c.weight).sum()
}

#[test]
fn clock_rejects_zero_weight() {
    assert_eq!(Clock::new(0, 3), None);
    assert_eq!(Clock::new(2, 3), Some(Clock { weight: 2, value: 3 }));
}

#[test]
fn knapsack_keeps_clock_order() {
    let clocks = [clock(3, 1), clock(1, 2), clock(3, 1)];
    let knapsack = Knapsack::from_clocks(&clocks);
    assert_eq!(knapsack.contents, clocks.to_vec());
    assert!(Knapsack::default().contents.is_empty());
}

#[test]
fn no_clocks_for_any_capacity() {
    for capacity in [0, 1, 10, u64::MAX] {
        assert!(generate(&[], capacity).is_empty());
    }
}

#[test]
fn zero_capacity_gives_nothing() {
    let clocks = [clock(1, 1), clock(2, 2), clock(3, 3)];
    assert!(generate(&clocks, 0).is_empty());
}

#[test]
fn single_clock_at_exact_capacity() {
    let c = clock(7, 1);
    let result = generate(&[c], 7);
    assert_eq!(result.len(), 1);
    assert!(result.contains(&[c]));
}

#[test]
fn single_clock_one_over_capacity() {
    assert!(generate(&[clock(8, 1)], 7).is_empty());
}

#[test]
fn pair_within_capacity_gives_three() {
    let a = clock(5, 20);
    let b = clock(4, 10);
    let result = generate(&[a, b], 10);
    assert_eq!(result.len(), 3);
    assert!(result.contains(&[a]));
    assert!(result.contains(&[b]));
    assert!(result.contains(&[a, b]));
    assert!(!result.contains(&[b, a]));
    assert!(!result.contains(&[]));
}

#[test]
fn pair_over_capacity_gives_singles_only() {
    let a = clock(5, 20);
    let b = clock(4, 10);
    let result = generate(&[a, b], 8);
    assert_eq!(sorted(&result), vec![vec![b], vec![a]]);
}

#[test]
fn three_clocks_exact_set() {
    let a = clock(1, 0);
    let b = clock(2, 0);
    let c = clock(3, 0);
    let result = generate(&[a, b, c], 4);
    let mut expected = vec![vec![a], vec![b], vec![c], vec![a, b], vec![a, c]];
    expected.sort_by_key(|s| s.iter().map(|c| (c.weight, c.value)).collect::<Vec<_>>());
    assert_eq!(sorted(&result), expected);
}

#[test]
fn all_subsets_when_capacity_is_ample() {
    let clocks: Vec<Clock> = (1..=6).map(|w| clock(w, w)).collect();
    let result = generate(&clocks, 1000);
    assert_eq!(result.len(), 63);
}

#[test]
fn equal_clocks_collapse() {
    let a = clock(2, 5);
    let result = generate(&[a, a], 10);
    assert_eq!(result.len(), 2);
    assert!(result.contains(&[a]));
    assert!(result.contains(&[a, a]));
}

#[test]
fn large_weights_do_not_overflow() {
    let a = clock(u64::MAX, 0);
    let b = clock(u64::MAX, 1);
    let result = generate(&[a, b], u64::MAX);
    assert_eq!(result.len(), 2);
    assert!(!result.contains(&[a, b]));
}

#[test]
fn repeated_generation_same_set() {
    let clocks = [clock(3, 1), clock(1, 2), clock(4, 3), clock(2, 4)];
    let first = generate(&clocks, 6);
    let second = generate(&clocks, 6);
    assert_eq!(sorted(&first), sorted(&second));
}

#[test]
fn raising_capacity_keeps_combinations() {
    let clocks = [clock(3, 1), clock(1, 2), clock(4, 3), clock(2, 4)];
    let mut previous = generate(&clocks, 0);
    for capacity in 1..=11 {
        let next = generate(&clocks, capacity);
        for s in previous.solutions() {
            assert!(next.contains(s));
        }
        assert!(next.len() >= previous.len());
        previous = next;
    }
    assert_eq!(previous.len(), 15);
}

#[test]
fn every_combination_within_capacity_and_non_empty() {
    let clocks = [clock(3, 1), clock(1, 2), clock(4, 3), clock(2, 4), clock(5, 5)];
    for capacity in 0..=16 {
        let result = generate(&clocks, capacity);
        for s in result.solutions() {
            assert!(!s.is_empty());
            assert!(total(s) <= capacity);
        }
    }
}

#[test]
fn search_extends_given_prefix_and_keeps_accumulator() {
    let a = clock(2, 0);
    let b = clock(3, 0);
    let seed = clock(9, 9);
    let problem = Problem {
        max_weight: 6,
        knapsack: Knapsack::from_clocks(&[a, b]),
    };
    let mut accumulator = CombinationSet::new();
    accumulator.insert(vec![seed]);
    let result = problem.get_all_combinations(&problem.knapsack.contents, vec![a], accumulator);
    assert_eq!(sorted(&result), vec![vec![a, a], vec![a, b], vec![seed]]);
}

#[test]
fn combination_set_insert_reports_news() {
    let a = clock(2, 0);
    let mut set = CombinationSet::new();
    assert!(set.insert(vec![a]));
    assert!(!set.insert(vec![a]));
    assert!(set.insert(vec![a, a]));
    assert_eq!(set.len(), 2);
    assert!(set.contains(&[a, a]));
    assert!(!set.contains(&[]));
}
