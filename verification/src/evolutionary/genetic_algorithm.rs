//! A generational evolutionary engine over an arbitrary candidate
//! representation.
//!
//! A [`Population`] holds a fixed number of [`Individual`] values and, each
//! generation, sorts them by fitness (lower is better), carries an elite
//! fraction forward unchanged, and fills the remainder by selection,
//! crossover and mutation. Selection is pluggable through [`Selection`];
//! the default policy is k-way [`Tournament`] selection.

use vstd::prelude::*;
use vstd::multiset::Multiset;

use crate::fixed::{SCALE, clamp, clamp_spec};
use crate::random::RandomSource;

verus! {

/// One candidate solution in the evolutionary population.
///
/// Fitness is a fixed-point scalar; lower is better. `inv` is the
/// representation's own well-formedness bound, which every operation
/// preserves; `spec_fitness` is the mathematical fitness that the
/// executable `fitness` returns.
pub trait Individual: Sized {
    /// Well-formedness of one candidate value.
    spec fn inv(&self) -> bool;

    /// The fitness as a mathematical value.
    spec fn spec_fitness(&self) -> int;

    /// A fresh, randomly initialized candidate.
    fn new_random<R: RandomSource>(rng: &mut R) -> (r: Self)
        ensures
            r.inv(),
    ;

    /// The candidate's fitness; lower is better.
    fn fitness(&self) -> (r: i64)
        requires
            self.inv(),
        ensures
            r as int == self.spec_fitness(),
    ;

    /// An equal copy of the candidate.
    fn duplicate(&self) -> (r: Self)
        requires
            self.inv(),
        ensures
            r == *self,
    ;

    /// Perturb the candidate in place.
    fn mutate<R: RandomSource>(&mut self, rng: &mut R)
        requires
            old(self).inv(),
        ensures
            final(self).inv(),
    ;

    /// Offspring of two parents; always at least one child.
    fn crossover<R: RandomSource>(&self, other: &Self, rng: &mut R) -> (c: Vec<Self>)
        requires
            self.inv(),
            other.inv(),
        ensures
            c@.len() >= 1,
            forall|i: int| 0 <= i < c@.len() ==> (#[trigger] c@[i]).inv(),
    ;
}

/// Every element of the sequence is well formed.
pub open spec fn all_inv<I: Individual>(s: Seq<I>) -> bool {
    forall|i: int| 0 <= i < s.len() ==> (#[trigger] s[i]).inv()
}

/// Non-decreasing fitness from left to right.
pub open spec fn sorted_by_fitness<I: Individual>(s: Seq<I>) -> bool {
    forall|i: int, j: int|
        0 <= i <= j < s.len() ==> (#[trigger] s[i]).spec_fitness() <= (#[trigger] s[j]).spec_fitness()
}

/// `x` placed before the first element of strictly greater fitness.
pub open spec fn insert_by_fitness<I: Individual>(s: Seq<I>, x: I) -> Seq<I>
    decreases s.len(),
{
    if s.len() == 0 {
        seq![x]
    } else if x.spec_fitness() < s[0].spec_fitness() {
        seq![x] + s
    } else {
        seq![s[0]] + insert_by_fitness(s.drop_first(), x)
    }
}

/// The stable ascending sort by fitness: each element, left to right,
/// inserted after every earlier element of equal fitness.
pub open spec fn sort_by_fitness<I: Individual>(s: Seq<I>) -> Seq<I>
    decreases s.len(),
{
    if s.len() == 0 {
        Seq::empty()
    } else {
        insert_by_fitness(sort_by_fitness(s.drop_last()), s.last())
    }
}

/// The least fitness among the elements (of a non-empty sequence).
pub open spec fn min_fitness<I: Individual>(s: Seq<I>) -> int
    decreases s.len(),
{
    if s.len() <= 1 {
        s[0].spec_fitness()
    } else if s[0].spec_fitness() <= min_fitness(s.drop_first()) {
        s[0].spec_fitness()
    } else {
        min_fitness(s.drop_first())
    }
}

/// How many individuals of a population of `n` an elitism fraction
/// `e / SCALE` carries forward: the floor of `n * e / SCALE`.
pub open spec fn spec_num_elite(n: int, e: int) -> int {
    (n * e) / (SCALE as int)
}

proof fn lemma_insert_len<I: Individual>(s: Seq<I>, x: I)
    ensures
        insert_by_fitness(s, x).len() == s.len() + 1,
    decreases s.len(),
{
    if s.len() == 0 {
    } else if x.spec_fitness() < s[0].spec_fitness() {
    } else {
        lemma_insert_len(s.drop_first(), x);
    }
}

proof fn lemma_insert_multiset<I: Individual>(s: Seq<I>, x: I)
    ensures
        insert_by_fitness(s, x).to_multiset() =~= s.to_multiset().insert(x),
    decreases s.len(),
{
    broadcast use vstd::seq_lib::group_to_multiset_ensures;

    if s.len() == 0 {
        assert(insert_by_fitness(s, x) =~= Seq::empty().push(x));
        assert(s.to_multiset() =~= Multiset::empty());
    } else if x.spec_fitness() < s[0].spec_fitness() {
        assert(seq![x] + s =~= s.insert(0, x));
        vstd::seq_lib::lemma_multiset_commutative(seq![x], s);
        assert(seq![x].to_multiset() =~= Multiset::empty().insert(x));
    } else {
        lemma_insert_multiset(s.drop_first(), x);
        let rest = insert_by_fitness(s.drop_first(), x);
        vstd::seq_lib::lemma_multiset_commutative(seq![s[0]], rest);
        vstd::seq_lib::lemma_multiset_commutative(seq![s[0]], s.drop_first());
        assert(seq![s[0]] + s.drop_first() =~= s);
    }
}

proof fn lemma_insert_sorted<I: Individual>(s: Seq<I>, x: I)
    requires
        sorted_by_fitness(s),
    ensures
        sorted_by_fitness(insert_by_fitness(s, x)),
    decreases s.len(),
{
    if s.len() == 0 {
    } else if x.spec_fitness() < s[0].spec_fitness() {
    } else {
        lemma_insert_sorted(s.drop_first(), x);
        lemma_insert_len(s.drop_first(), x);
        let t = insert_by_fitness(s, x);
        let rest = insert_by_fitness(s.drop_first(), x);
        lemma_insert_members(s.drop_first(), x);
        assert forall|i: int, j: int| 0 <= i <= j < t.len() implies
            t[i].spec_fitness() <= t[j].spec_fitness() by {
            if i == 0 && j > 0 {
                assert(t[j] == rest[j - 1]);
            }
        }
    }
}

/// Every element of the inserted sequence is `x` or an element of `s`.
proof fn lemma_insert_members<I: Individual>(s: Seq<I>, x: I)
    ensures
        forall|i: int| 0 <= i < insert_by_fitness(s, x).len() ==>
            (#[trigger] insert_by_fitness(s, x)[i]) == x || s.contains(insert_by_fitness(s, x)[i]),
    decreases s.len(),
{
    if s.len() == 0 {
    } else if x.spec_fitness() < s[0].spec_fitness() {
    } else {
        lemma_insert_members(s.drop_first(), x);
        lemma_insert_len(s.drop_first(), x);
        let t = insert_by_fitness(s, x);
        let rest = insert_by_fitness(s.drop_first(), x);
        assert forall|i: int| 0 <= i < t.len() implies
            (#[trigger] t[i]) == x || s.contains(t[i]) by {
            if i > 0 {
                assert(t[i] == rest[i - 1]);
                if rest[i - 1] != x {
                    let k = choose|k: int| 0 <= k < s.drop_first().len()
                        && s.drop_first()[k] == rest[i - 1];
                    assert(s[k + 1] == rest[i - 1]);
                }
            }
        }
    }
}

/// Inserting at the first position of strictly greater fitness is the
/// pointwise splice at that position.
proof fn lemma_insert_split<I: Individual>(s: Seq<I>, x: I, pos: int)
    requires
        0 <= pos <= s.len(),
        forall|j: int| 0 <= j < pos ==> (#[trigger] s[j]).spec_fitness() <= x.spec_fitness(),
        pos < s.len() ==> x.spec_fitness() < s[pos].spec_fitness(),
    ensures
        insert_by_fitness(s, x) =~= s.insert(pos, x),
    decreases s.len(),
{
    lemma_insert_len(s, x);
    if s.len() == 0 {
    } else if x.spec_fitness() < s[0].spec_fitness() {
        assert(pos == 0);
    } else {
        lemma_insert_split(s.drop_first(), x, pos - 1);
    }
}

proof fn lemma_sort_len<I: Individual>(s: Seq<I>)
    ensures
        sort_by_fitness(s).len() == s.len(),
    decreases s.len(),
{
    if s.len() > 0 {
        lemma_sort_len(s.drop_last());
        lemma_insert_len(sort_by_fitness(s.drop_last()), s.last());
    }
}

pub proof fn lemma_sort_multiset<I: Individual>(s: Seq<I>)
    ensures
        sort_by_fitness(s).to_multiset() =~= s.to_multiset(),
    decreases s.len(),
{
    broadcast use vstd::seq_lib::group_to_multiset_ensures;

    if s.len() > 0 {
        lemma_sort_multiset(s.drop_last());
        lemma_insert_multiset(sort_by_fitness(s.drop_last()), s.last());
        assert(s =~= s.drop_last().push(s.last()));
    }
}

pub proof fn lemma_sort_sorted<I: Individual>(s: Seq<I>)
    ensures
        sorted_by_fitness(sort_by_fitness(s)),
    decreases s.len(),
{
    if s.len() > 0 {
        lemma_sort_sorted(s.drop_last());
        lemma_insert_sorted(sort_by_fitness(s.drop_last()), s.last());
    }
}

/// A sequence with the same multiset as a well-formed one is well formed.
proof fn lemma_all_inv_multiset<I: Individual>(s: Seq<I>, t: Seq<I>)
    requires
        all_inv(s),
        s.to_multiset() == t.to_multiset(),
    ensures
        all_inv(t),
{
    broadcast use vstd::seq_lib::group_to_multiset_ensures;

    assert forall|i: int| 0 <= i < t.len() implies (#[trigger] t[i]).inv() by {
        assert(t.contains(t[i]));
        assert(t.to_multiset().count(t[i]) > 0);
        assert(s.contains(t[i]));
        let k = choose|k: int| 0 <= k < s.len() && s[k] == t[i];
        assert(s[k].inv());
    }
}

pub proof fn lemma_min_fitness_le<I: Individual>(s: Seq<I>, j: int)
    requires
        0 <= j < s.len(),
    ensures
        min_fitness(s) <= s[j].spec_fitness(),
    decreases s.len(),
{
    if s.len() > 1 && j > 0 {
        lemma_min_fitness_le(s.drop_first(), j - 1);
    }
}

pub proof fn lemma_min_fitness_attained<I: Individual>(s: Seq<I>)
    requires
        s.len() >= 1,
    ensures
        exists|i: int| 0 <= i < s.len() && (#[trigger] s[i]).spec_fitness() == min_fitness(s),
    decreases s.len(),
{
    if s.len() == 1 {
        assert(s[0].spec_fitness() == min_fitness(s));
    } else if s[0].spec_fitness() <= min_fitness(s.drop_first()) {
        assert(s[0].spec_fitness() == min_fitness(s));
    } else {
        lemma_min_fitness_attained(s.drop_first());
        let i = choose|i: int| 0 <= i < s.drop_first().len()
            && (#[trigger] s.drop_first()[i]).spec_fitness() == min_fitness(s.drop_first());
        assert(s[i + 1].spec_fitness() == min_fitness(s));
    }
}

/// The first element of the sorted population attains the least fitness
/// of the whole population.
pub proof fn lemma_sort_first_min<I: Individual>(s: Seq<I>)
    requires
        s.len() >= 1,
    ensures
        sort_by_fitness(s).len() == s.len(),
        sort_by_fitness(s)[0].spec_fitness() == min_fitness(s),
{
    broadcast use vstd::seq_lib::group_to_multiset_ensures;

    let t = sort_by_fitness(s);
    lemma_sort_len(s);
    lemma_sort_multiset(s);
    lemma_sort_sorted(s);

    // min_fitness(s) <= t[0]: t[0] is an element of s.
    assert(t.contains(t[0]));
    assert(t.to_multiset().count(t[0]) > 0);
    assert(s.to_multiset().count(t[0]) > 0);
    assert(s.contains(t[0]));
    let k = choose|k: int| 0 <= k < s.len() && s[k] == t[0];
    lemma_min_fitness_le(s, k);

    // t[0] <= min_fitness(s): the minimum is attained at some s[i],
    // which sits somewhere in t, above t[0].
    lemma_min_fitness_attained(s);
    let i = choose|i: int| 0 <= i < s.len() && (#[trigger] s[i]).spec_fitness() == min_fitness(s);
    assert(s.contains(s[i]));
    assert(s.to_multiset().count(s[i]) > 0);
    assert(t.to_multiset().count(s[i]) > 0);
    assert(t.contains(s[i]));
    let m = choose|m: int| 0 <= m < t.len() && t[m] == s[i];
    assert(t[0].spec_fitness() <= t[m].spec_fitness());
}

/// A selection policy: from a non-empty population and a random source,
/// a chosen index. Pure but for the draws it consumes.
pub trait Selection<I: Individual>: Sized {
    fn select<R: RandomSource>(&self, individuals: &Vec<I>, rng: &mut R) -> (r: usize)
        requires
            individuals@.len() >= 1,
            all_inv(individuals@),
        ensures
            r < individuals@.len(),
    ;
}

/// The index, among the given candidate indices, of the first individual
/// of least fitness: ties go to the earliest-drawn candidate, keeping
/// selection deterministic given a deterministic random source. With a
/// single candidate index the choice degenerates to that index itself,
/// whatever its fitness.
pub fn best_of_indices<I: Individual>(individuals: &Vec<I>, indices: &Vec<usize>) -> (r: usize)
    requires
        indices@.len() >= 1,
        all_inv(individuals@),
        forall|j: int| 0 <= j < indices@.len() ==> (#[trigger] indices@[j]) < individuals@.len(),
    ensures
        r < individuals@.len(),
        exists|j: int|
            0 <= j < indices@.len() && (#[trigger] indices@[j]) == r && forall|l: int|
                0 <= l < j ==> individuals@[(#[trigger] indices@[l]) as int].spec_fitness()
                    > individuals@[r as int].spec_fitness(),
        forall|j: int| 0 <= j < indices@.len() ==>
            individuals@[r as int].spec_fitness()
                <= individuals@[(#[trigger] indices@[j]) as int].spec_fitness(),
        indices@.len() == 1 ==> r == indices@[0],
{
    let mut best: usize = indices[0];
    let ghost mut jb: int = 0;
    let mut j: usize = 1;
    while j < indices.len()
        invariant
            1 <= j <= indices@.len(),
            best < individuals@.len(),
            all_inv(individuals@),
            forall|l: int| 0 <= l < indices@.len() ==> (#[trigger] indices@[l]) < individuals@.len(),
            0 <= jb < j,
            indices@[jb] == best,
            forall|l: int| 0 <= l < jb ==>
                individuals@[(#[trigger] indices@[l]) as int].spec_fitness()
                    > individuals@[best as int].spec_fitness(),
            forall|l: int| 0 <= l < j ==>
                individuals@[best as int].spec_fitness()
                    <= individuals@[(#[trigger] indices@[l]) as int].spec_fitness(),
        decreases indices@.len() - j,
    {
        let candidate: usize = indices[j];
        if individuals[candidate].fitness() < individuals[best].fitness() {
            best = candidate;
            proof {
                jb = j as int;
            }
        }
        j = j + 1;
    }
    best
}

/// k-way tournament selection: draw `k` indices uniformly at random, with
/// replacement, and keep the one of least fitness. At least one index is
/// always drawn, so a count of zero behaves as a count of one.
pub struct Tournament {
    /// How many indices each tournament draws.
    pub k: usize,
}

impl<I: Individual> Selection<I> for Tournament {
    fn select<R: RandomSource>(&self, individuals: &Vec<I>, rng: &mut R) -> (r: usize) {
        let n = individuals.len();
        let mut drawn: Vec<usize> = Vec::new();
        drawn.push(rng.next_index(n));
        let mut i: usize = 1;
        while i < self.k
            invariant
                n == individuals@.len(),
                n >= 1,
                drawn@.len() >= 1,
                forall|j: int| 0 <= j < drawn@.len() ==> (#[trigger] drawn@[j]) < n,
            decreases self.k - i,
        {
            drawn.push(rng.next_index(n));
            i = i + 1;
        }
        best_of_indices(individuals, &drawn)
    }
}

/// Appending to a sequence leaves every existing prefix as it was.
proof fn lemma_take_push<A>(s: Seq<A>, x: A, m: int)
    requires
        0 <= m <= s.len(),
    ensures
        s.push(x).take(m) =~= s.take(m),
{
}

/// An ordered population of individuals with a fixed size, an elitism
/// fraction, and a pluggable selection strategy.
///
/// The elitism fraction is a fixed-point value in `[0, SCALE]`; each
/// generation the top `floor(size * fraction / SCALE)` individuals by
/// fitness are carried forward unchanged.
pub struct Population<I: Individual, S: Selection<I>> {
    individuals: Vec<I>,
    elitism: i64,
    selection: S,
}

impl<I: Individual, S: Selection<I>> Population<I, S> {
    /// The individuals, in their current order.
    pub closed spec fn spec_individuals(&self) -> Seq<I> {
        self.individuals@
    }

    /// The elitism fraction, in `[0, SCALE]`.
    pub closed spec fn spec_elitism(&self) -> int {
        self.elitism as int
    }

    /// The selection strategy.
    pub closed spec fn spec_selection(&self) -> S {
        self.selection
    }

    /// Well-formedness: the elitism fraction is a valid fraction and
    /// every individual satisfies its own invariant.
    pub open spec fn wf(&self) -> bool {
        &&& 0 <= self.spec_elitism() <= SCALE
        &&& all_inv(self.spec_individuals())
    }

    /// A population of `size` randomly initialized individuals.
    ///
    /// An elitism fraction outside `[0, SCALE]` is truncated to the
    /// nearest valid bound rather than rejected.
    pub fn new<R: RandomSource>(
        size: usize,
        elitism_fraction: i64,
        selection: S,
        rng: &mut R,
    ) -> (r: Self)
        requires
            size >= 1,
        ensures
            r.wf(),
            r.spec_individuals().len() == size,
            r.spec_elitism() == clamp_spec(elitism_fraction as int, 0, SCALE as int),
            r.spec_selection() == selection,
    {
        let elitism = clamp(elitism_fraction, 0, SCALE);
        let mut individuals: Vec<I> = Vec::new();
        let mut i: usize = 0;
        while i < size
            invariant
                i <= size,
                individuals@.len() == i,
                all_inv(individuals@),
            decreases size - i,
        {
            individuals.push(I::new_random(rng));
            i = i + 1;
        }
        Population { individuals, elitism, selection }
    }

    /// How many individuals the population holds.
    pub fn size(&self) -> (r: usize)
        ensures
            r == self.spec_individuals().len(),
    {
        self.individuals.len()
    }

    /// The individual at `index`.
    pub fn get(&self, index: usize) -> (r: &I)
        requires
            index < self.spec_individuals().len(),
        ensures
            *r == self.spec_individuals()[index as int],
    {
        &self.individuals[index]
    }

    /// Mutable access to the individual at `index`. The population stays
    /// well formed as long as the new value satisfies its invariant.
    pub fn get_mut(&mut self, index: usize) -> (r: &mut I)
        requires
            index < old(self).spec_individuals().len(),
        ensures
            *r == old(self).spec_individuals()[index as int],
            final(self).spec_individuals()
                == old(self).spec_individuals().update(index as int, *final(r)),
            final(self).spec_elitism() == old(self).spec_elitism(),
            final(self).spec_selection() == old(self).spec_selection(),
            old(self).wf() && (*final(r)).inv() ==> final(self).wf(),
    {
        &mut self.individuals[index]
    }

    /// Reorder the population ascending by fitness, stably: individuals
    /// of equal fitness keep their relative order.
    pub fn sort(&mut self)
        requires
            old(self).wf(),
        ensures
            final(self).wf(),
            final(self).spec_individuals()
                == sort_by_fitness(old(self).spec_individuals()),
            final(self).spec_elitism() == old(self).spec_elitism(),
            final(self).spec_selection() == old(self).spec_selection(),
    {
        let ghost input = self.individuals@;
        let n = self.individuals.len();
        let mut out: Vec<I> = Vec::new();
        let mut i: usize = 0;
        while i < n
            invariant
                i <= n,
                n == self.individuals@.len(),
                self.individuals@ == input,
                self.wf(),
                out@ == sort_by_fitness(input.take(i as int)),
            decreases n - i,
        {
            proof {
                lemma_sort_len(input.take(i as int));
                assert(all_inv(input.take(i as int)));
                lemma_sort_multiset(input.take(i as int));
                lemma_all_inv_multiset(input.take(i as int), out@);
            }
            let x = self.individuals[i].duplicate();
            let xf = x.fitness();
            let mut pos: usize = 0;
            while pos < out.len() && out[pos].fitness() <= xf
                invariant
                    pos <= out@.len(),
                    all_inv(out@),
                    x.inv(),
                    xf as int == x.spec_fitness(),
                    forall|l: int| 0 <= l < pos ==>
                        (#[trigger] out@[l]).spec_fitness() <= x.spec_fitness(),
                decreases out@.len() - pos,
            {
                pos = pos + 1;
            }
            let ghost prev = out@;
            out.insert(pos, x);
            proof {
                lemma_insert_split(prev, x, pos as int);
                assert(input.take(i + 1 as int).drop_last() =~= input.take(i as int));
                assert(input.take(i + 1 as int).last() == input[i as int]);
            }
            i = i + 1;
        }
        proof {
            assert(input.take(n as int) =~= input);
            lemma_sort_multiset(input);
            lemma_all_inv_multiset(input, sort_by_fitness(input));
        }
        self.individuals = out;
    }

    /// One generation: sort, carry the elite forward unchanged, then fill
    /// the rest with mutated offspring of selected parents, truncating any
    /// overshooting crossover so the size never changes.
    ///
    /// The elitism invariant is stated below: the top
    /// `floor(size * fraction / SCALE)` individuals by fitness reappear
    /// unchanged, in order, at the front of the next generation, and a
    /// positive elite count never lets the best fitness regress.
    pub fn run_generation<R: RandomSource>(&mut self, rng: &mut R)
        requires
            old(self).wf(),
            old(self).spec_individuals().len() >= 1,
        ensures
            final(self).wf(),
            final(self).spec_individuals().len() == old(self).spec_individuals().len(),
            final(self).spec_elitism() == old(self).spec_elitism(),
            final(self).spec_selection() == old(self).spec_selection(),
            final(self).spec_individuals().take(
                spec_num_elite(
                    old(self).spec_individuals().len() as int,
                    old(self).spec_elitism(),
                ),
            ) == sort_by_fitness(old(self).spec_individuals()).take(
                spec_num_elite(
                    old(self).spec_individuals().len() as int,
                    old(self).spec_elitism(),
                ),
            ),
            spec_num_elite(
                old(self).spec_individuals().len() as int,
                old(self).spec_elitism(),
            ) >= 1 ==> min_fitness(final(self).spec_individuals())
                <= min_fitness(old(self).spec_individuals()),
    {
        let ghost orig = old(self).spec_individuals();
        self.sort();
        proof {
            lemma_sort_len(orig);
        }
        let ghost sorted = self.individuals@;
        let n = self.individuals.len();

        proof {
            vstd::arithmetic::mul::lemma_mul_inequality(
                n as int,
                0xffff_ffff_ffff_ffff,
                self.elitism as int,
            );
            vstd::arithmetic::mul::lemma_mul_inequality(
                self.elitism as int,
                SCALE as int,
                n as int,
            );
            vstd::arithmetic::div_mod::lemma_div_is_ordered(
                n as int * self.elitism as int,
                n as int * SCALE as int,
                SCALE as int,
            );
            vstd::arithmetic::div_mod::lemma_div_multiples_vanish(n as int, SCALE as int);
        }
        let wide: u128 = (n as u128) * (self.elitism as u128) / (SCALE as u128);
        let num_elite: usize = wide as usize;
        proof {
            assert(num_elite as int == spec_num_elite(n as int, self.elitism as int));
        }

        let mut next: Vec<I> = Vec::new();
        let mut i: usize = 0;
        while i < num_elite
            invariant
                i <= num_elite,
                num_elite <= n,
                n == self.individuals@.len(),
                self.individuals@ == sorted,
                self.wf(),
                next@ == sorted.take(i as int),
            decreases num_elite - i,
        {
            let x = self.individuals[i].duplicate();
            next.push(x);
            proof {
                assert(next@ =~= sorted.take(i + 1 as int));
            }
            i = i + 1;
        }

        while next.len() < n
            invariant
                num_elite <= next@.len() <= n,
                n == self.individuals@.len(),
                n >= 1,
                self.individuals@ == sorted,
                self.wf(),
                all_inv(next@),
                next@.take(num_elite as int) == sorted.take(num_elite as int),
            decreases n - next@.len(),
        {
            let before = next.len();
            let parent1_index = self.selection.select(&self.individuals, rng);
            let parent2_index = self.selection.select(&self.individuals, rng);
            let parent1 = self.individuals[parent1_index].duplicate();
            let parent2 = self.individuals[parent2_index].duplicate();
            let children = parent1.crossover(&parent2, rng);

            let mut mutated: Vec<I> = Vec::new();
            let mut j: usize = 0;
            while j < children.len()
                invariant
                    j <= children@.len(),
                    all_inv(children@),
                    all_inv(mutated@),
                    mutated@.len() == j,
                decreases children@.len() - j,
            {
                let mut c = children[j].duplicate();
                c.mutate(rng);
                mutated.push(c);
                j = j + 1;
            }

            let mut l: usize = 0;
            while l < mutated.len() && next.len() < n
                invariant
                    l <= mutated@.len(),
                    next@.len() == before + l,
                    before < n,
                    next@.len() <= n,
                    num_elite <= before,
                    all_inv(mutated@),
                    all_inv(next@),
                    next@.take(num_elite as int) == sorted.take(num_elite as int),
                decreases mutated@.len() - l,
            {
                let ghost prev = next@;
                next.push(mutated[l].duplicate());
                proof {
                    lemma_take_push(prev, next@.last(), num_elite as int);
                }
                l = l + 1;
            }
        }

        self.individuals = next;

        proof {
            let ne = spec_num_elite(orig.len() as int, self.elitism as int);
            assert(ne == num_elite as int);
            if ne >= 1 {
                assert(self.individuals@.take(ne) == sorted.take(ne));
                assert(self.individuals@.take(ne)[0] == self.individuals@[0]);
                assert(sorted.take(ne)[0] == sorted[0]);
                lemma_sort_first_min(orig);
                lemma_min_fitness_le(self.individuals@, 0);
            }
        }
    }

    /// Run exactly `generations` generations, sequentially, with no early
    /// stopping. With a positive elite count the best fitness never
    /// regresses; with zero generations the population is left exactly as
    /// it was.
    pub fn run<R: RandomSource>(&mut self, generations: usize, rng: &mut R)
        requires
            old(self).wf(),
            old(self).spec_individuals().len() >= 1,
        ensures
            final(self).wf(),
            final(self).spec_individuals().len() == old(self).spec_individuals().len(),
            final(self).spec_elitism() == old(self).spec_elitism(),
            final(self).spec_selection() == old(self).spec_selection(),
            generations == 0 ==> *final(self) == *old(self),
            spec_num_elite(
                old(self).spec_individuals().len() as int,
                old(self).spec_elitism(),
            ) >= 1 ==> min_fitness(final(self).spec_individuals())
                <= min_fitness(old(self).spec_individuals()),
    {
        let mut g: usize = 0;
        while g < generations
            invariant
                g <= generations,
                self.wf(),
                self.spec_individuals().len() >= 1,
                self.spec_individuals().len() == old(self).spec_individuals().len(),
                self.spec_elitism() == old(self).spec_elitism(),
                self.spec_selection() == old(self).spec_selection(),
                g == 0 ==> *self == *old(self),
                spec_num_elite(
                    old(self).spec_individuals().len() as int,
                    old(self).spec_elitism(),
                ) >= 1 ==> min_fitness(self.spec_individuals())
                    <= min_fitness(old(self).spec_individuals()),
            decreases generations - g,
        {
            self.run_generation(rng);
            g = g + 1;
        }
    }

    /// Sort, then return the fittest individual.
    pub fn get_best(&mut self) -> (r: &I)
        requires
            old(self).wf(),
            old(self).spec_individuals().len() >= 1,
        ensures
            final(self).wf(),
            final(self).spec_individuals()
                == sort_by_fitness(old(self).spec_individuals()),
            final(self).spec_elitism() == old(self).spec_elitism(),
            final(self).spec_selection() == old(self).spec_selection(),
            *r == final(self).spec_individuals()[0],
            r.spec_fitness() == min_fitness(old(self).spec_individuals()),
    {
        proof {
            lemma_sort_first_min(old(self).spec_individuals());
        }
        self.sort();
        &self.individuals[0]
    }

    /// Evolve for `generations` generations; the same protocol as [`Self::run`].
    pub fn evolve<R: RandomSource>(&mut self, generations: usize, rng: &mut R)
        requires
            old(self).wf(),
            old(self).spec_individuals().len() >= 1,
        ensures
            final(self).wf(),
            final(self).spec_individuals().len() == old(self).spec_individuals().len(),
            final(self).spec_elitism() == old(self).spec_elitism(),
            final(self).spec_selection() == old(self).spec_selection(),
            generations == 0 ==> *final(self) == *old(self),
            spec_num_elite(
                old(self).spec_individuals().len() as int,
                old(self).spec_elitism(),
            ) >= 1 ==> min_fitness(final(self).spec_individuals())
                <= min_fitness(old(self).spec_individuals()),
    {
        self.run(generations, rng)
    }

    /// The fittest individual, without reordering the population.
    pub fn best_individual(&self) -> (r: &I)
        requires
            self.wf(),
            self.spec_individuals().len() >= 1,
        ensures
            self.spec_individuals().contains(*r),
            r.spec_fitness() == min_fitness(self.spec_individuals()),
    {
        let ghost s = self.spec_individuals();
        let mut best: usize = 0;
        let mut i: usize = 1;
        while i < self.individuals.len()
            invariant
                self.wf(),
                s == self.spec_individuals(),
                1 <= i <= s.len(),
                best < i,
                forall|l: int| 0 <= l < i ==>
                    s[best as int].spec_fitness() <= (#[trigger] s[l]).spec_fitness(),
            decreases s.len() - i,
        {
            if self.individuals[i].fitness() < self.individuals[best].fitness() {
                best = i;
            }
            i = i + 1;
        }
        proof {
            lemma_min_fitness_le(s, best as int);
            lemma_min_fitness_attained(s);
            let k = choose|k: int| 0 <= k < s.len()
                && (#[trigger] s[k]).spec_fitness() == min_fitness(s);
            assert(s[best as int].spec_fitness() <= s[k].spec_fitness());
            assert(s.contains(s[best as int]));
        }
        &self.individuals[best]
    }
}

impl<I: Individual> Population<I, Tournament> {
    /// A population of `pop_size` random individuals with the default
    /// 3-way tournament selection and no elitism.
    pub fn new_random<R: RandomSource>(pop_size: usize, rng: &mut R) -> (r: Self)
        requires
            pop_size >= 1,
        ensures
            r.wf(),
            r.spec_individuals().len() == pop_size,
            r.spec_elitism() == 0,
            r.spec_selection() == (Tournament { k: 3 }),
    {
        Self::new(pop_size, 0, Tournament { k: 3 }, rng)
    }
}

} // verus!
