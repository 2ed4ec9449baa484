//! Random draws.

use vstd::prelude::*;

use rand::rngs::StdRng;
use rand::seq::SliceRandom;
use rand::{Rng, SeedableRng};

verus! {

/// The generator of `rand` that is seeded or drawn from the system.
#[verifier::external_type_specification]
#[verifier::external_body]
pub struct ExStdRng(rand::rngs::StdRng);

/// `StdRng::seed_from_u64`: the generator of a seed. What it will draw is left open: `rand` keeps
/// neither the algorithm behind `StdRng` from one version to the next nor the draws of a `usize`
/// from one width of it to another.
#[verifier::external_body]
fn seeded(seed: u64) -> (r: StdRng) {
    StdRng::seed_from_u64(seed)
}

/// `StdRng::from_entropy`: a generator that the system seeds.
#[verifier::external_body]
fn from_system() -> (r: StdRng) {
    StdRng::from_entropy()
}

/// The generator is that of the seed or, without one, a generator that the system seeded.
pub closed spec fn is_generator(seed: Option<u64>, r: StdRng) -> bool {
    match seed {
        Some(seed) => call_ensures(seeded, (seed,), r),
        None => call_ensures(from_system, (), r),
    }
}

/// The generator of a seed, or one that the system seeds.
pub fn generator(seed: Option<u64>) -> (r: StdRng)
    ensures
        is_generator(seed, r),
{
    match seed {
        Some(seed) => seeded(seed),
        None => from_system(),
    }
}

/// `Rng::gen_range` over `0..bound` draws a number below the bound. Which one, and what becomes of
/// the generator, is left open.
#[verifier::external_body]
pub(crate) fn below(rng: &mut StdRng, bound: usize) -> (r: usize)
    requires
        bound > 0,
    ensures
        r < bound,
{
    rng.gen_range(0..bound)
}

/// `Rng::gen_range` over `0..bound` with the generator of the thread draws a number below the
/// bound.
#[verifier::external_body]
pub(crate) fn thread_below(bound: usize) -> (r: usize)
    requires
        bound > 0,
    ensures
        r < bound,
{
    rand::thread_rng().gen_range(0..bound)
}

/// The values stand at the given positions of the pool, no position twice.
pub open spec fn drawn_at(values: Seq<usize>, pool: Seq<usize>, at: Seq<int>) -> bool {
    &&& at.len() == values.len()
    &&& at.no_duplicates()
    &&& forall|i: int|
        0 <= i < at.len() ==> 0 <= #[trigger] at[i] < pool.len() && values[i] == pool[at[i]]
}

/// So many values out of the pool, each position at most once; all of them when the pool
/// holds no more.
pub open spec fn is_sample(values: Seq<usize>, pool: Seq<usize>, amount: usize) -> bool {
    &&& values.len() == if amount < pool.len() {
        amount as nat
    } else {
        pool.len()
    }
    &&& exists|at: Seq<int>| drawn_at(values, pool, at)
}

/// `SliceRandom::choose_multiple` draws distinct positions of the slice, as many as asked for
/// and as there are. Which ones, in what order, and what becomes of the generator, is left open.
#[verifier::external_body]
pub(crate) fn sample(rng: &mut StdRng, pool: &[usize], amount: usize) -> (r: Vec<usize>)
    ensures
        is_sample(r@, pool@, amount),
{
    pool.choose_multiple(rng, amount).copied().collect()
}

/// A sample of a pool without repetitions has none.
pub proof fn samples_of_distinct_values_are_distinct(
    values: Seq<usize>,
    pool: Seq<usize>,
    amount: usize,
)
    requires
        is_sample(values, pool, amount),
        pool.no_duplicates(),
    ensures
        values.no_duplicates(),
        forall|i: int| 0 <= i < values.len() ==> pool.contains(#[trigger] values[i]),
{
    let at = choose|at: Seq<int>| drawn_at(values, pool, at);
    assert forall|i: int, j: int| 0 <= i < j < values.len() implies values[i] != values[j] by {
        assert(at[i] != at[j]);
    }
    assert forall|i: int| 0 <= i < values.len() implies pool.contains(#[trigger] values[i]) by {
        assert(pool[at[i]] == values[i]);
    }
}

} // verus!
