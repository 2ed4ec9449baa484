//! The last known rollout of each example.

use std::sync::Arc;
use vstd::prelude::*;

use crate::optimizer::rollouts::{CandidateEval, RolloutOutcome};
use crate::trace;
use crate::trace::{Eval, Score, Trace};

verus! {

/// An evaluation, with its trace when the rollout was run for it.
#[derive(Debug)]
pub struct Stored {
    pub eval: Eval,
    pub trace: Option<Arc<Trace>>,
}

/// What is known of each example.
pub type RolloutStore = Vec<Option<Stored>>;

impl Clone for Stored {
    fn clone(&self) -> (r: Self)
        ensures
            r == *self,
    {
        let trace = match &self.trace {
            Some(t) => Some(trace::share(t)),
            None => None,
        };
        Stored { eval: self.eval.clone(), trace }
    }
}

pub open spec fn stored(rollout: RolloutOutcome) -> Stored {
    Stored { eval: rollout.eval, trace: rollout.trace }
}

/// Nothing is known of any of the examples.
pub open spec fn unknown(n: nat) -> Seq<Option<Stored>> {
    Seq::new(n, |i: int| None)
}

pub fn empty_store(n: usize) -> (r: RolloutStore)
    ensures
        r@ == unknown(n as nat),
{
    let mut out: Vec<Option<Stored>> = Vec::new();
    let mut i: usize = 0;
    while i < n
        invariant
            i <= n,
            out@ == unknown(i as nat),
        decreases n - i,
    {
        out.push(None);
        i += 1;
        proof {
            assert(out@ =~= unknown(i as nat));
        }
    }
    out
}

/// The store with the first `n` rollouts written; `traced` leaves out those without a trace.
pub open spec fn stored_after(
    store: Seq<Option<Stored>>,
    rollouts: Seq<RolloutOutcome>,
    traced: bool,
    n: nat,
) -> Seq<Option<Stored>>
    decreases n,
{
    if n == 0 || n > rollouts.len() {
        store
    } else {
        let before = stored_after(store, rollouts, traced, (n - 1) as nat);
        let rollout = rollouts[n - 1];
        if traced && rollout.trace is None {
            before
        } else {
            before.update(rollout.example as int, Some(stored(rollout)))
        }
    }
}

/// Each rollout is of an example of the store.
pub open spec fn fits(rollouts: Seq<RolloutOutcome>, n: nat) -> bool {
    forall|i: int| 0 <= i < rollouts.len() ==> (#[trigger] rollouts[i]).example < n
}

/// Something is known of every example.
pub open spec fn complete(store: Seq<Option<Stored>>) -> bool {
    forall|i: int| 0 <= i < store.len() ==> #[trigger] store[i] is Some
}

/// Every example below `n` has a rollout.
pub open spec fn covers(rollouts: Seq<RolloutOutcome>, n: nat) -> bool {
    forall|e: int|
        0 <= e < n ==> exists|i: int|
            0 <= i < rollouts.len() && #[trigger] rollouts[i].example == #[trigger] id(e)
}

pub open spec fn id(e: int) -> int {
    e
}

pub proof fn lemma_stored_after(
    store: Seq<Option<Stored>>,
    rollouts: Seq<RolloutOutcome>,
    traced: bool,
    n: nat,
)
    requires
        n <= rollouts.len(),
        fits(rollouts, store.len()),
    ensures
        stored_after(store, rollouts, traced, n).len() == store.len(),
        complete(store) ==> complete(stored_after(store, rollouts, traced, n)),
        forall|i: int|
            0 <= i < n && !(traced && rollouts[i].trace is None) ==> stored_after(
                store,
                rollouts,
                traced,
                n,
            )[(#[trigger] rollouts[i]).example as int] is Some,
    decreases n,
{
    if n > 0 {
        lemma_stored_after(store, rollouts, traced, (n - 1) as nat);
        assert(rollouts[n - 1].example < store.len());
        let before = stored_after(store, rollouts, traced, (n - 1) as nat);
        let now = stored_after(store, rollouts, traced, n);
        assert forall|i: int| 0 <= i < n && !(traced && rollouts[i].trace is None) implies now[(
        #[trigger] rollouts[i]).example as int] is Some by {
            if i < n - 1 {
                assert(before[rollouts[i].example as int] is Some);
                assert(rollouts[i].example < store.len());
            }
        }
        if complete(store) {
            assert forall|i: int| 0 <= i < now.len() implies #[trigger] now[i] is Some by {
                assert(before[i] is Some);
            }
        }
    }
}

/// Writing a rollout for every example leaves nothing unknown.
pub proof fn lemma_covered_store_is_complete(
    store: Seq<Option<Stored>>,
    rollouts: Seq<RolloutOutcome>,
)
    requires
        fits(rollouts, store.len()),
        covers(rollouts, store.len()),
    ensures
        complete(stored_after(store, rollouts, false, rollouts.len())),
        stored_after(store, rollouts, false, rollouts.len()).len() == store.len(),
{
    lemma_stored_after(store, rollouts, false, rollouts.len());
    let now = stored_after(store, rollouts, false, rollouts.len());
    assert forall|e: int| 0 <= e < now.len() implies #[trigger] now[e] is Some by {
        let i = choose|i: int|
            0 <= i < rollouts.len() && #[trigger] rollouts[i].example == id(e);
        assert(now[rollouts[i].example as int] is Some);
    }
}

/// Writes the rollouts of an evaluation.
pub fn write_rollouts(store: &mut RolloutStore, eval: &CandidateEval, traced: bool)
    requires
        fits(eval.rollouts@, old(store)@.len()),
    ensures
        final(store)@ == stored_after(
            old(store)@,
            eval.rollouts@,
            traced,
            eval.rollouts@.len(),
        ),
{
    let mut i: usize = 0;
    while i < eval.rollouts.len()
        invariant
            i <= eval.rollouts@.len(),
            fits(eval.rollouts@, old(store)@.len()),
            store@.len() == old(store)@.len(),
            store@ == stored_after(old(store)@, eval.rollouts@, traced, i as nat),
        decreases eval.rollouts@.len() - i,
    {
        let rollout = &eval.rollouts[i];
        proof {
            assert(eval.rollouts@[i as int].example < old(store)@.len());
        }
        if !(traced && rollout.trace.is_none()) {
            let trace = match &rollout.trace {
                Some(t) => Some(trace::share(t)),
                None => None,
            };
            store.set(rollout.example, Some(Stored { eval: rollout.eval.clone(), trace }));
        }
        i += 1;
    }
}

/// The scores of the chosen examples.
pub open spec fn scores_at(store: Seq<Option<Stored>>, chosen: Seq<usize>) -> Seq<Score> {
    Seq::new(chosen.len(), |i: int| store[chosen[i] as int]->0.eval.score)
}

/// The chosen examples are in the store, and something is known of each.
pub open spec fn known(store: Seq<Option<Stored>>, chosen: Seq<usize>) -> bool {
    forall|i: int|
        0 <= i < chosen.len() ==> (#[trigger] chosen[i]) < store.len() && store[chosen[i] as int] is Some
}

pub fn chosen_scores(store: &RolloutStore, chosen: &[usize]) -> (r: Vec<Score>)
    requires
        known(store@, chosen@),
    ensures
        r@ == scores_at(store@, chosen@),
{
    let mut out: Vec<Score> = Vec::new();
    let mut i: usize = 0;
    while i < chosen.len()
        invariant
            i <= chosen@.len(),
            known(store@, chosen@),
            out@.len() == i,
            forall|k: int|
                0 <= k < i ==> out@[k] == store@[(#[trigger] chosen@[k]) as int]->0.eval.score,
        decreases chosen@.len() - i,
    {
        proof {
            assert(chosen@[i as int] < store@.len());
        }
        match &store[chosen[i]] {
            Some(s) => out.push(s.eval.score),
            None => {},
        }
        i += 1;
    }
    proof {
        assert(out@ =~= scores_at(store@, chosen@));
    }
    out
}

/// The first of the highest scores.
pub open spec fn is_first_best(scores: Seq<Score>, i: int) -> bool {
    &&& 0 <= i < scores.len()
    &&& forall|j: int| 0 <= j < scores.len() ==> (#[trigger] scores[j]).key <= scores[i].key
    &&& forall|j: int| 0 <= j < i ==> (#[trigger] scores[j]).key < scores[i].key
}

/// The first of the lowest scores.
pub open spec fn is_first_worst(scores: Seq<Score>, i: int) -> bool {
    &&& 0 <= i < scores.len()
    &&& forall|j: int| 0 <= j < scores.len() ==> (#[trigger] scores[j]).key >= scores[i].key
    &&& forall|j: int| 0 <= j < i ==> (#[trigger] scores[j]).key > scores[i].key
}

/// The positions of the first of the highest and the first of the lowest scores.
pub fn best_and_worst(scores: &Vec<Score>) -> (r: (usize, usize))
    requires
        scores@.len() > 0,
    ensures
        is_first_best(scores@, r.0 as int),
        is_first_worst(scores@, r.1 as int),
{
    let mut best: usize = 0;
    let mut worst: usize = 0;
    let mut i: usize = 1;
    while i < scores.len()
        invariant
            best < i <= scores@.len(),
            worst < i,
            is_first_best(scores@.take(i as int), best as int),
            is_first_worst(scores@.take(i as int), worst as int),
        decreases scores@.len() - i,
    {
        let ghost prior = scores@.take(i as int);
        if scores[i].key > scores[best].key {
            proof {
                assert(prior[best as int] == scores@[best as int]);
            }
            best = i;
        }
        if scores[i].key < scores[worst].key {
            proof {
                assert(prior[worst as int] == scores@[worst as int]);
            }
            worst = i;
        }
        i += 1;
        proof {
            let now = scores@.take(i as int);
            assert forall|j: int| 0 <= j < now.len() implies (#[trigger] now[j]).key
                <= now[best as int].key && (j < best ==> now[j].key < now[best as int].key)
                && now[j].key >= now[worst as int].key && (j < worst ==> now[j].key
                > now[worst as int].key) by {
                if j < i - 1 {
                    assert(prior[j] == now[j]);
                }
            }
        }
    }
    proof {
        assert(scores@.take(i as int) =~= scores@);
    }
    (best, worst)
}

/// The numbers in increasing order.
pub open spec fn ascending(s: Seq<usize>) -> bool {
    forall|i: int, j: int| 0 <= i < j < s.len() ==> s[i] <= s[j]
}

/// Sorts numbers.
pub fn sort(items: Vec<usize>) -> (r: Vec<usize>)
    ensures
        ascending(r@),
        r@.to_multiset() == items@.to_multiset(),
        r@.len() == items@.len(),
{
    let mut out: Vec<usize> = Vec::new();
    let mut i: usize = 0;
    proof {
        assert(items@.take(0) =~= Seq::empty());
        assert(out@ =~= Seq::empty());
    }
    while i < items.len()
        invariant
            i <= items@.len(),
            out@.len() == i,
            ascending(out@),
            out@.to_multiset() == items@.take(i as int).to_multiset(),
        decreases items@.len() - i,
    {
        let x = items[i];
        let mut p: usize = out.len();
        while p > 0 && out[p - 1] > x
            invariant
                p <= out@.len(),
                ascending(out@),
                forall|k: int| p <= k < out@.len() ==> out@[k] > x,
            decreases p,
        {
            p -= 1;
        }
        let ghost before = out@;
        proof {
            vstd::seq_lib::to_multiset_insert(before, p as int, x);
            vstd::seq_lib::to_multiset_build(items@.take(i as int), x);
            assert(items@.take(i + 1) =~= items@.take(i as int).push(x));
        }
        out.insert(p, x);
        i += 1;
    }
    proof {
        assert(items@.take(i as int) =~= items@);
    }
    out
}

proof fn lemma_stored_at(
    store: Seq<Option<Stored>>,
    rollouts: Seq<RolloutOutcome>,
    n: nat,
    e: int,
    i: int,
)
    requires
        n <= rollouts.len(),
        fits(rollouts, store.len()),
        0 <= e < store.len(),
        0 <= i < n ==> rollouts[i].example == e && forall|j: int|
            i < j < n ==> (#[trigger] rollouts[j]).example != e,
        !(0 <= i < n) ==> forall|j: int| 0 <= j < n ==> (#[trigger] rollouts[j]).example != e,
    ensures
        stored_after(store, rollouts, false, n).len() == store.len(),
        0 <= i < n ==> stored_after(store, rollouts, false, n)[e] == Some(stored(rollouts[i])),
        !(0 <= i < n) ==> stored_after(store, rollouts, false, n)[e] == store[e],
    decreases n,
{
    if n > 0 {
        assert(rollouts[n - 1].example < store.len());
        if i == n - 1 {
            lemma_stored_after(store, rollouts, false, (n - 1) as nat);
        } else {
            lemma_stored_at(store, rollouts, (n - 1) as nat, e, i);
            assert(rollouts[n - 1].example != e);
        }
    }
}

/// What is written of an example is what its last rollout gave; examples without a rollout keep
/// what was known of them.
pub proof fn rollouts_are_kept_by_their_example(
    store: &mut RolloutStore,
    eval: &CandidateEval,
    i: int,
    e: int,
)
    requires
        fits(eval.rollouts@, old(store)@.len()),
        call_ensures(write_rollouts, (store, eval, false), ()),
    ensures
        final(store)@.len() == old(store)@.len(),
        0 <= i < eval.rollouts@.len() && (forall|j: int|
            i < j < eval.rollouts@.len() ==> (#[trigger] eval.rollouts@[j]).example
                != eval.rollouts@[i].example) ==> {
            let kept = final(store)@[eval.rollouts@[i].example as int];
            kept is Some && kept->0.eval == eval.rollouts@[i].eval && kept->0.trace
                == eval.rollouts@[i].trace
        },
        0 <= e < old(store)@.len() && (forall|j: int|
            0 <= j < eval.rollouts@.len() ==> (#[trigger] eval.rollouts@[j]).example != e)
            ==> final(store)@[e] == old(store)@[e],
{
    let all = eval.rollouts@;
    lemma_stored_after(old(store)@, all, false, all.len());
    if 0 <= i < all.len() && (forall|j: int|
        i < j < all.len() ==> (#[trigger] all[j]).example != all[i].example) {
        assert(all[i].example < old(store)@.len());
        lemma_stored_at(old(store)@, all, all.len(), all[i].example as int, i);
    }
    if 0 <= e < old(store)@.len() && (forall|j: int|
        0 <= j < all.len() ==> (#[trigger] all[j]).example != e) {
        lemma_stored_at(old(store)@, all, all.len(), e, -1);
    }
}

/// The best of some scores is one that none exceeds, and the worst one that none falls below; where
/// several are equal, the first counts.
pub proof fn no_score_is_beyond_the_best_and_the_worst(
    scores: &Vec<Score>,
    r: (usize, usize),
    j: int,
)
    requires
        call_ensures(best_and_worst, (scores,), r),
        0 <= j < scores@.len(),
    ensures
        r.0 < scores@.len(),
        r.1 < scores@.len(),
        scores@[r.1 as int].key <= scores@[j].key <= scores@[r.0 as int].key,
        j < r.0 ==> scores@[j].key < scores@[r.0 as int].key,
        j < r.1 ==> scores@[j].key > scores@[r.1 as int].key,
{
}

/// The scores that are read back are those of the chosen examples, in the order of the choice.
pub proof fn chosen_scores_are_those_of_the_examples(
    store: &RolloutStore,
    chosen: &[usize],
    r: Vec<Score>,
    i: int,
)
    requires
        call_ensures(chosen_scores, (store, chosen), r),
    ensures
        r@.len() == chosen@.len(),
        0 <= i < r@.len() && store@[chosen@[i] as int] is Some ==> r@[i]
            == store@[chosen@[i] as int]->0.eval.score,
{
}

} // verus!
