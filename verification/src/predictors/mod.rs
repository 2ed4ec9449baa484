//! Predictors: what they are asked, and what they answer.

use vstd::prelude::*;

use crate::json::JsonMap;
use crate::trace::LmUsage;

pub mod calls;
pub mod predict;
pub mod tool_schema;

verus! {

/// What a predictor answers.
#[derive(Debug)]
pub struct Prediction {
    pub data: JsonMap,
    pub lm_usage: LmUsage,
}

/// A predictor that answers with what it is asked.
#[derive(Clone, Copy, Debug, PartialEq, Eq, Structural)]
pub struct DummyPredict;

impl DummyPredict {
    pub fn forward(&self, inputs: JsonMap) -> (r: Prediction)
        ensures
            r.data == inputs,
            r.lm_usage == LmUsage::zero(),
    {
        Prediction { data: inputs, lm_usage: LmUsage::default() }
    }
}

/// The positions are those of a list, each once.
pub open spec fn is_batch<T, E>(results: Seq<(usize, Result<T, E>)>) -> bool {
    &&& forall|i: int, j: int|
        0 <= i < j < results.len() ==> (#[trigger] results[i]).0 != (#[trigger] results[j]).0
    &&& forall|k: int| 0 <= k < results.len() ==> #[trigger] holds_position(results, k)
}

pub open spec fn is_position<T, E>(results: Seq<(usize, Result<T, E>)>, k: int, i: int) -> bool {
    0 <= i < results.len() && results[i].0 == k
}

/// One of the results is for the position.
pub open spec fn holds_position<T, E>(results: Seq<(usize, Result<T, E>)>, k: int) -> bool {
    exists|i: int| is_position(results, k, i)
}

fn find_position<T, E>(results: &Vec<(usize, Result<T, E>)>, k: usize) -> (r: usize)
    requires
        holds_position(results@, k as int),
    ensures
        is_position(results@, k as int, r as int),
{
    let ghost w = choose|i: int| is_position(results@, k as int, i);
    let mut i: usize = 0;
    while i < results.len() && results[i].0 != k
        invariant
            i <= w < results@.len(),
            is_position(results@, k as int, w),
        decreases results@.len() - i,
    {
        i += 1;
    }
    i
}

/// The results of a batch, which come in as they are ready, in the order of what was asked. The
/// error is that of the first request that failed.
pub fn in_request_order<T, E>(results: Vec<(usize, Result<T, E>)>) -> (r: Result<Vec<T>, E>)
    requires
        is_batch(results@),
    ensures
        match r {
            Ok(list) => list@.len() == results@.len() && forall|i: int|
                0 <= i < results@.len() ==> (#[trigger] results@[i]).1 == Ok::<T, E>(
                    list@[results@[i].0 as int],
                ),
            Err(e) => exists|i: int|
                0 <= i < results@.len() && (#[trigger] results@[i]).1 == Err::<T, E>(e)
                    && forall|j: int|
                    0 <= j < results@.len() && (#[trigger] results@[j]).0 < results@[i].0
                        ==> results@[j].1 is Ok,
        },
{
    let ghost all = results@;
    let total = results.len();
    let mut rest = results;
    let mut out: Vec<T> = Vec::new();
    let mut k: usize = 0;
    while rest.len() > 0
        invariant
            all == results@,
            all.len() == total,
            k + rest@.len() == all.len(),
            out@.len() == k,
            is_batch(all),
            forall|i: int, j: int|
                0 <= i < j < rest@.len() ==> (#[trigger] rest@[i]).0 != (#[trigger] rest@[j]).0,
            forall|m: int| k <= m < all.len() ==> #[trigger] holds_position(rest@, m),
            forall|i: int| 0 <= i < rest@.len() ==> all.contains(#[trigger] rest@[i]),
            forall|i: int|
                0 <= i < all.len() && (#[trigger] all[i]).0 < k ==> all[i].1 == Ok::<T, E>(
                    out@[all[i].0 as int],
                ),
            forall|i: int|
                0 <= i < all.len() && k <= (#[trigger] all[i]).0 ==> rest@.contains(all[i]),
        decreases rest@.len(),
    {
        proof {
            assert(holds_position(rest@, k as int));
        }
        let at = find_position(&rest, k);
        let ghost before = rest@;
        let ghost found = rest@[at as int];
        let entry = rest.remove(at);
        proof {
            assert(entry == found);
            assert(all.contains(found));
            let w = choose|w: int| 0 <= w < all.len() && all[w] == found;
            assert forall|i: int| 0 <= i < all.len() && (#[trigger] all[i]).0 == k implies all[i]
                == found by {
                if i != w {
                    assert(all[i].0 != all[w].0);
                }
            }
            assert forall|i: int, j: int| 0 <= i < j < rest@.len() implies (#[trigger] rest@[i]).0
                != (#[trigger] rest@[j]).0 by {
                let x = if i < at { i } else { i + 1 };
                let y = if j < at { j } else { j + 1 };
                assert(rest@[i] == before[x] && rest@[j] == before[y]);
            }
            assert forall|m: int| k + 1 <= m < all.len() implies #[trigger] holds_position(
                rest@,
                m,
            ) by {
                assert(holds_position(before, m));
                let x = choose|x: int| is_position(before, m, x);
                let i = if x < at { x } else { x - 1 };
                assert(rest@[i] == before[x]);
                assert(is_position(rest@, m, i));
            }
            assert forall|i: int| 0 <= i < rest@.len() implies all.contains(
                #[trigger] rest@[i],
            ) by {
                let x = if i < at { i } else { i + 1 };
                assert(rest@[i] == before[x]);
            }
            assert forall|i: int|
                0 <= i < all.len() && k + 1 <= (#[trigger] all[i]).0 implies rest@.contains(
                all[i],
            ) by {
                assert(before.contains(all[i]));
                let x = choose|x: int| 0 <= x < before.len() && before[x] == all[i];
                let y = if x < at { x } else { x - 1 };
                assert(rest@[y] == all[i]);
            }
        }
        match entry.1 {
            Ok(t) => {
                let ghost prior = out@;
                out.push(t);
                proof {
                    assert forall|i: int|
                        0 <= i < all.len() && (#[trigger] all[i]).0 < k + 1 implies all[i].1
                        == Ok::<T, E>(out@[all[i].0 as int]) by {
                        if all[i].0 == k {
                            assert(all[i] == found);
                        } else {
                            assert(out@[all[i].0 as int] == prior[all[i].0 as int]);
                        }
                    }
                }
            },
            Err(e) => {
                proof {
                    let w = choose|w: int| 0 <= w < all.len() && all[w] == found;
                    assert(all[w].1 == Err::<T, E>(e));
                    assert forall|j: int|
                        0 <= j < all.len() && (#[trigger] all[j]).0 < all[w].0 implies all[j].1
                        is Ok by {}
                }
                return Err(e);
            },
        }
        k += 1;
    }
    proof {
        assert forall|i: int| 0 <= i < all.len() implies (#[trigger] all[i]).1 == Ok::<T, E>(
            out@[all[i].0 as int],
        ) by {
            if k <= all[i].0 {
                assert(rest@.contains(all[i]));
            }
        }
    }
    Ok(out)
}

/// Every request of a batch gets its own reply, wherever that came in; the batch fails exactly
/// where a request failed.
pub proof fn requests_get_their_own_replies<T, E>(
    results: Vec<(usize, Result<T, E>)>,
    r: Result<Vec<T>, E>,
    i: int,
)
    requires
        is_batch(results@),
        call_ensures(in_request_order::<T, E>, (results,), r),
        0 <= i < results@.len(),
    ensures
        r is Ok ==> r->Ok_0@.len() == results@.len() && results@[i].1 == Ok::<T, E>(
            r->Ok_0@[results@[i].0 as int],
        ),
        results@[i].1 is Err ==> r is Err,
        r is Err ==> exists|k: int| 0 <= k < results@.len() && (#[trigger] results@[k]).1 is Err,
{
}

} // verus!
