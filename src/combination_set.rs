use vstd::prelude::*;

use crate::clock::Clock;

verus! {

broadcast use vstd::seq_lib::group_seq_properties;

/// Whether two sequences of clocks hold the same clocks in the same order.
pub fn same_clocks(a: &[Clock], b: &[Clock]) -> (r: bool)
    ensures
        r == (a@ == b@),
{
    if a.len() != b.len() {
        return false;
    }
    let mut i: usize = 0;
    while i < a.len()
        invariant
            a@.len() == b@.len(),
            i <= a@.len(),
            forall|j: int| 0 <= j < i ==> a@[j] == b@[j],
        decreases a@.len() - i,
    {
        if a[i] != b[i] {
            return false;
        }
        i = i + 1;
    }
    assert(a@ =~= b@);
    true
}

/// A set of combinations of clocks, each combination an ordered sequence.
///
/// Two combinations are the same entry exactly when they hold the same
/// clocks in the same order.
pub struct CombinationSet {
    solutions: Vec<Vec<Clock>>,
}

impl View for CombinationSet {
    type V = Set<Seq<Clock>>;

    closed spec fn view(&self) -> Set<Seq<Clock>> {
        self.entries().to_set()
    }
}

impl CombinationSet {
    /// The stored combinations, in storage order.
    closed spec fn entries(&self) -> Seq<Seq<Clock>> {
        self.solutions@.map_values(|v: Vec<Clock>| v@)
    }

    /// No combination is stored twice.
    #[verifier::type_invariant]
    closed spec fn no_repeats(&self) -> bool {
        self.entries().no_duplicates()
    }

    /// The empty set.
    pub fn new() -> (r: CombinationSet)
        ensures
            r@ == Set::<Seq<Clock>>::empty(),
    {
        let r = CombinationSet { solutions: Vec::new() };
        assert(r.entries() =~= Seq::<Seq<Clock>>::empty());
        r
    }

    /// Whether `solution` is in the set.
    pub fn contains(&self, solution: &[Clock]) -> (r: bool)
        ensures
            r == self@.contains(solution@),
    {
        let mut i: usize = 0;
        while i < self.solutions.len()
            invariant
                i <= self.solutions@.len(),
                forall|j: int| 0 <= j < i ==> self.entries()[j] != solution@,
            decreases self.solutions@.len() - i,
        {
            if same_clocks(self.solutions[i].as_slice(), solution) {
                assert(self.entries()[i as int] == solution@);
                return true;
            }
            i = i + 1;
        }
        false
    }

    /// Adds `solution`; returns whether it was not there before.
    pub fn insert(&mut self, solution: Vec<Clock>) -> (r: bool)
        ensures
            final(self)@ == old(self)@.insert(solution@),
            r == !old(self)@.contains(solution@),
    {
        if self.contains(solution.as_slice()) {
            proof {
                assert(self@.insert(solution@) =~= self@);
            }
            false
        } else {
            let mut taken = CombinationSet::new();
            std::mem::swap(self, &mut taken);
            proof {
                use_type_invariant(&taken);
            }
            let ghost before = taken.entries();
            let CombinationSet { mut solutions } = taken;
            solutions.push(solution);
            proof {
                assert(solutions@.map_values(|v: Vec<Clock>| v@) =~= before.push(solution@));
                before.lemma_push_to_set_commute(solution@);
            }
            *self = CombinationSet { solutions };
            true
        }
    }

    /// The number of combinations in the set.
    pub fn len(&self) -> (r: usize)
        ensures
            r == self@.len(),
    {
        proof {
            use_type_invariant(self);
            self.entries().unique_seq_to_set();
        }
        self.solutions.len()
    }

    /// Whether the set holds no combination.
    pub fn is_empty(&self) -> (r: bool)
        ensures
            r == (self@ == Set::<Seq<Clock>>::empty()),
    {
        let n = self.len();
        proof {
            if n == 0 {
                self.entries().lemma_cardinality_of_set();
                self@.lemma_len0_is_empty();
            }
        }
        n == 0
    }

    /// The combinations, each once, in no particular order.
    pub fn solutions(&self) -> (r: &[Vec<Clock>])
        ensures
            r@.map_values(|v: Vec<Clock>| v@).to_set() == self@,
            r@.map_values(|v: Vec<Clock>| v@).no_duplicates(),
    {
        proof {
            use_type_invariant(self);
        }
        self.solutions.as_slice()
    }
}

} // verus!
