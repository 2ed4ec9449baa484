//! Demonstrations harvested from the calls of scored rollouts.

use std::sync::Arc;
use vstd::prelude::*;

use crate::json;
use crate::json::{Json, JsonMap, JsonView};
use crate::json_laws;
use crate::names;
use crate::optimizer::engine::{Candidate, SlotView};
use crate::optimizer::rollouts::{CandidateEval, RolloutOutcome};
use crate::text;
use crate::trace;
use crate::trace::{Score, Span, Trace};

verus! {

/// A call that may become a demonstration of its predictor.
#[derive(Debug)]
pub struct DemoCandidate {
    pub predictor: String,
    pub score: Score,
    pub input_fingerprint: String,
    pub row: JsonMap,
}

/// Input and output in one object; an output field replaces an input field of its name.
pub open spec fn demo_row(input: JsonMap, output: JsonMap) -> Seq<(Seq<char>, JsonView)> {
    json::extended(json::members_view(input@), json::members_view(output@), output@.len())
}

pub fn demo_from_json(input: &JsonMap, output: &JsonMap) -> (r: JsonMap)
    ensures
        json::members_view(r@) == demo_row(*input, *output),
{
    let mut row = json::clone_map(input);
    json::extend_map(&mut row, output);
    row
}

/// The members in the order of their names, each as a pair.
pub open spec fn sorted_pairs(input: Seq<(Seq<char>, JsonView)>) -> Seq<JsonView> {
    let order = names::key_order(json::keys_of(input), input.len());
    Seq::new(
        order.len(),
        |i: int|
            JsonView::Array(seq![JsonView::Str(input[order[i]].0), input[order[i]].1]),
    )
}

/// A text that inputs with the same members share, whatever their order.
pub open spec fn fingerprint(input: Seq<(Seq<char>, JsonView)>) -> Seq<char> {
    json::json_text(JsonView::Array(sorted_pairs(input)))
}

pub fn input_fingerprint(input: &JsonMap) -> (r: String)
    ensures
        r@ == fingerprint(json::members_view(input@)),
{
    let ghost view = json::members_view(input@);
    proof {
        assert(names::names_of(input@) =~= json::keys_of(view));
    }
    let order = names::sorted_order(input);
    let mut items: Vec<Json> = Vec::new();
    let mut i: usize = 0;
    while i < order.len()
        invariant
            i <= order@.len(),
            view == json::members_view(input@),
            order@.len() == input@.len(),
            forall|j: int| 0 <= j < order@.len() ==> 0 <= #[trigger] order@[j] < input@.len(),
            items@.len() == i,
            forall|j: int|
                0 <= j < i ==> (#[trigger] items@[j])@ == JsonView::Array(
                    seq![
                        JsonView::Str(view[order@[j] as int].0),
                        view[order@[j] as int].1,
                    ],
                ),
        decreases order@.len() - i,
    {
        let k = order[i];
        let mut pair: Vec<Json> = Vec::new();
        pair.push(Json::Str(input[k].0.clone()));
        pair.push(input[k].1.clone());
        proof {
            assert(json::items_view(pair@) =~= seq![
                JsonView::Str(view[k as int].0),
                view[k as int].1,
            ]);
        }
        items.push(json::array(pair));
        i += 1;
    }
    proof {
        assert(json::items_view(items@) =~= sorted_pairs(view)) by {
            let want = names::key_order(json::keys_of(view), view.len());
            assert forall|j: int| 0 <= j < items@.len() implies json::items_view(items@)[j]
                == sorted_pairs(view)[j] by {
                assert(items@[j]@ == json::items_view(items@)[j]);
                assert(order@[j] == want[j]);
            }
        }
    }
    let value = json::array(items);
    json::json_string(&value)
}

/// The call ended without an error.
pub open spec fn succeeded(span: Span) -> bool {
    span.complete && span.error is None
}

/// The score of a call: its own when it was judged, else that of its rollout.
pub open spec fn span_score(rollout: Score, span: Span) -> Score {
    match span.eval {
        Some(e) => e.score,
        None => rollout,
    }
}

/// The call becomes a demonstration: it succeeded, scored high enough, and has both sides.
pub open spec fn is_demo(rollout: Score, span: Span, min_score: i64) -> bool {
    &&& succeeded(span)
    &&& span_score(rollout, span).key >= min_score
    &&& span.input is Some
    &&& span.output is Some
}

/// The candidate is that of the call.
pub open spec fn made_from(c: DemoCandidate, rollout: Score, span: Span) -> bool {
    &&& c.predictor@ == span.component@
    &&& c.score == span_score(rollout, span)
    &&& c.input_fingerprint@ == fingerprint(json::members_view(span.input->0@))
    &&& json::members_view(c.row@) == demo_row(span.input->0, span.output->0)
}

/// The calls among the first `n` of a rollout that become demonstrations.
pub open spec fn demo_spans(rollout: Score, spans: Seq<Span>, min_score: i64, n: nat) -> Seq<
    (Score, Span),
>
    decreases n,
{
    if n == 0 || n > spans.len() {
        Seq::empty()
    } else if is_demo(rollout, spans[n - 1], min_score) {
        demo_spans(rollout, spans, min_score, (n - 1) as nat).push((rollout, spans[n - 1]))
    } else {
        demo_spans(rollout, spans, min_score, (n - 1) as nat)
    }
}

/// The calls of the first `n` rollouts that become demonstrations.
pub open spec fn demos_of_rollouts(
    rollouts: Seq<(Score, Arc<Trace>)>,
    min_score: i64,
    n: nat,
) -> Seq<(Score, Span)>
    decreases n,
{
    if n == 0 || n > rollouts.len() {
        Seq::empty()
    } else {
        let spans = rollouts[n - 1].1.spans@;
        demos_of_rollouts(rollouts, min_score, (n - 1) as nat) + demo_spans(
            rollouts[n - 1].0,
            spans,
            min_score,
            spans.len(),
        )
    }
}

/// The candidates are those of the calls, in order.
pub open spec fn all_made_from(cands: Seq<DemoCandidate>, calls: Seq<(Score, Span)>) -> bool {
    &&& cands.len() == calls.len()
    &&& forall|k: int|
        0 <= k < cands.len() ==> made_from(#[trigger] cands[k], calls[k].0, calls[k].1)
}

fn span_is_demo(rollout: Score, span: &Span, min_score: i64) -> (r: bool)
    ensures
        r == is_demo(rollout, *span, min_score),
{
    let key = match &span.eval {
        Some(e) => e.score.key,
        None => rollout.key,
    };
    span.complete && span.error.is_none() && key >= min_score && span.input.is_some()
        && span.output.is_some()
}

/// The candidates of scored rollouts, in the order of their calls.
pub fn collect_demo_candidates(
    rollouts: &Vec<(Score, Arc<Trace>)>,
    min_score: i64,
) -> (r: Vec<DemoCandidate>)
    ensures
        all_made_from(r@, demos_of_rollouts(rollouts@, min_score, rollouts@.len())),
{
    let mut out: Vec<DemoCandidate> = Vec::new();
    let mut i: usize = 0;
    while i < rollouts.len()
        invariant
            i <= rollouts@.len(),
            all_made_from(out@, demos_of_rollouts(rollouts@, min_score, i as nat)),
        decreases rollouts@.len() - i,
    {
        let score = rollouts[i].0;
        let spans = &rollouts[i].1.spans;
        let ghost before = demos_of_rollouts(rollouts@, min_score, i as nat);
        let mut j: usize = 0;
        proof {
            assert(before + demo_spans(score, spans@, min_score, 0) =~= before);
        }
        while j < spans.len()
            invariant
                j <= spans@.len(),
                all_made_from(out@, before + demo_spans(score, spans@, min_score, j as nat)),
            decreases spans@.len() - j,
        {
            let ghost calls = before + demo_spans(score, spans@, min_score, j as nat);
            if span_is_demo(score, &spans[j], min_score) {
                match (&spans[j].input, &spans[j].output) {
                    (Some(input), Some(output)) => {
                        let own = match &spans[j].eval {
                            Some(e) => e.score,
                            None => score,
                        };
                        out.push(
                            DemoCandidate {
                                predictor: spans[j].component.clone(),
                                score: own,
                                input_fingerprint: input_fingerprint(input),
                                row: demo_from_json(input, output),
                            },
                        );
                        proof {
                            assert(before + demo_spans(score, spans@, min_score, (j + 1) as nat)
                                =~= calls.push((score, spans@[j as int])));
                        }
                    },
                    _ => {},
                }
            }
            j += 1;
        }
        i += 1;
    }
    out
}

/// `k` put into an order, behind those that do not score less.
pub open spec fn insert_by_score(cands: Seq<DemoCandidate>, order: Seq<int>, k: int) -> Seq<int>
    decreases order.len(),
{
    if order.len() == 0 || cands[k].score.key <= cands[order.last()].score.key {
        order.push(k)
    } else {
        insert_by_score(cands, order.drop_last(), k).push(order.last())
    }
}

/// The candidates of a predictor, best first; equal ones as they came.
pub open spec fn ranked(cands: Seq<DemoCandidate>, name: Seq<char>, n: nat) -> Seq<int>
    decreases n,
{
    if n == 0 || n > cands.len() {
        Seq::empty()
    } else if cands[n - 1].predictor@ == name {
        insert_by_score(cands, ranked(cands, name, (n - 1) as nat), n - 1)
    } else {
        ranked(cands, name, (n - 1) as nat)
    }
}

pub open spec fn same_input(cands: Seq<DemoCandidate>, a: int, b: int) -> bool {
    cands[a].input_fingerprint@ == cands[b].input_fingerprint@
}

/// The first of each input among the first `n` of an order.
pub open spec fn first_of_inputs(cands: Seq<DemoCandidate>, order: Seq<int>, n: nat) -> Seq<int>
    decreases n,
{
    if n == 0 || n > order.len() {
        Seq::empty()
    } else {
        let before = first_of_inputs(cands, order, (n - 1) as nat);
        if exists|j: int| 0 <= j < before.len() && same_input(cands, #[trigger] before[j], order[n - 1]) {
            before
        } else {
            before.push(order[n - 1])
        }
    }
}

/// The candidates that are kept for a predictor: the best `max` of different inputs.
pub open spec fn kept(cands: Seq<DemoCandidate>, name: Seq<char>, max: nat) -> Seq<int> {
    let order = ranked(cands, name, cands.len());
    let firsts = first_of_inputs(cands, order, order.len());
    if firsts.len() <= max {
        firsts
    } else {
        firsts.take(max as int)
    }
}

/// The rows that are kept for a predictor.
pub open spec fn kept_rows(cands: Seq<DemoCandidate>, name: Seq<char>, max: nat) -> Seq<
    Seq<(Seq<char>, JsonView)>,
> {
    let at = kept(cands, name, max);
    Seq::new(at.len(), |i: int| json::members_view(cands[at[i]].row@))
}

proof fn lemma_insert_by_score(cands: Seq<DemoCandidate>, order: Seq<int>, k: int)
    ensures
        insert_by_score(cands, order, k).len() == order.len() + 1,
        forall|i: int|
            0 <= i < order.len() + 1 ==> #[trigger] insert_by_score(cands, order, k)[i] == k
                || order.contains(insert_by_score(cands, order, k)[i]),
    decreases order.len(),
{
    if order.len() != 0 && !(cands[k].score.key <= cands[order.last()].score.key) {
        lemma_insert_by_score(cands, order.drop_last(), k);
        let r = insert_by_score(cands, order, k);
        assert forall|i: int| 0 <= i < order.len() + 1 implies #[trigger] r[i] == k
            || order.contains(r[i]) by {
            let head = insert_by_score(cands, order.drop_last(), k);
            if i < head.len() {
                assert(r[i] == head[i]);
                if head[i] != k {
                    let j = order.drop_last().index_of(head[i]);
                    assert(order[j] == head[i]);
                }
            } else {
                assert(order[order.len() - 1] == r[i]);
            }
        }
    } else {
        let r = order.push(k);
        assert forall|i: int| 0 <= i < order.len() + 1 implies #[trigger] r[i] == k
            || order.contains(r[i]) by {
            if i < order.len() {
                assert(order[i] == r[i]);
            }
        }
    }
}

/// Every ranked candidate is one of the predictor.
pub proof fn lemma_ranked(cands: Seq<DemoCandidate>, name: Seq<char>, n: nat)
    requires
        n <= cands.len(),
    ensures
        forall|i: int|
            0 <= i < ranked(cands, name, n).len() ==> 0 <= #[trigger] ranked(cands, name, n)[i] < n
                && cands[ranked(cands, name, n)[i]].predictor@ == name,
    decreases n,
{
    if n > 0 {
        lemma_ranked(cands, name, (n - 1) as nat);
        let before = ranked(cands, name, (n - 1) as nat);
        if cands[n - 1].predictor@ == name {
            lemma_insert_by_score(cands, before, n - 1);
            let now = ranked(cands, name, n);
            assert forall|i: int| 0 <= i < now.len() implies 0 <= #[trigger] now[i] < n
                && cands[now[i]].predictor@ == name by {
                if now[i] != n - 1 {
                    let j = before.index_of(now[i]);
                    assert(before[j] == now[i]);
                }
            }
        }
    }
}

proof fn lemma_firsts(cands: Seq<DemoCandidate>, order: Seq<int>, n: nat)
    requires
        n <= order.len(),
    ensures
        forall|i: int|
            0 <= i < first_of_inputs(cands, order, n).len() ==> order.contains(
                #[trigger] first_of_inputs(cands, order, n)[i],
            ),
        forall|i: int, j: int|
            0 <= i < j < first_of_inputs(cands, order, n).len() ==> !same_input(
                cands,
                #[trigger] first_of_inputs(cands, order, n)[i],
                #[trigger] first_of_inputs(cands, order, n)[j],
            ),
    decreases n,
{
    if n > 0 {
        lemma_firsts(cands, order, (n - 1) as nat);
        assert(order.contains(order[n - 1]));
        let before = first_of_inputs(cands, order, (n - 1) as nat);
        let now = first_of_inputs(cands, order, n);
        assert forall|i: int| 0 <= i < now.len() implies order.contains(#[trigger] now[i]) by {
            if i < before.len() {
                assert(now[i] == before[i]);
            }
        }
        assert forall|i: int, j: int| 0 <= i < j < now.len() implies !same_input(
            cands,
            #[trigger] now[i],
            #[trigger] now[j],
        ) by {
            assert(now[i] == before[i]);
            if j < before.len() {
                assert(now[j] == before[j]);
            }
        }
    }
}

/// The demos of a predictor: at most `max` of them, no two with the same input, and each from
/// one of its candidates.
pub proof fn kept_demos_are_capped_and_distinct(
    cands: Seq<DemoCandidate>,
    name: Seq<char>,
    max: nat,
)
    ensures
        kept(cands, name, max).len() <= max,
        forall|i: int, j: int|
            0 <= i < j < kept(cands, name, max).len() ==> !same_input(
                cands,
                #[trigger] kept(cands, name, max)[i],
                #[trigger] kept(cands, name, max)[j],
            ),
        forall|i: int|
            0 <= i < kept(cands, name, max).len() ==> 0 <= #[trigger] kept(cands, name, max)[i]
                < cands.len() && cands[kept(cands, name, max)[i]].predictor@ == name,
{
    let order = ranked(cands, name, cands.len());
    lemma_ranked(cands, name, cands.len());
    lemma_firsts(cands, order, order.len());
    let firsts = first_of_inputs(cands, order, order.len());
    assert forall|i: int| 0 <= i < kept(cands, name, max).len() implies 0 <= #[trigger] kept(
        cands,
        name,
        max,
    )[i] < cands.len() && cands[kept(cands, name, max)[i]].predictor@ == name by {
        assert(kept(cands, name, max)[i] == firsts[i]);
        let j = order.index_of(firsts[i]);
        assert(order[j] == firsts[i]);
    }
}

/// A demonstration never comes from a call below the minimum score.
pub proof fn harvested_calls_score_high_enough(
    rollouts: Seq<(Score, Arc<Trace>)>,
    min_score: i64,
    n: nat,
)
    requires
        n <= rollouts.len(),
    ensures
        forall|k: int|
            0 <= k < demos_of_rollouts(rollouts, min_score, n).len() ==> {
                let call = #[trigger] demos_of_rollouts(rollouts, min_score, n)[k];
                is_demo(call.0, call.1, min_score)
            },
    decreases n,
{
    if n > 0 {
        harvested_calls_score_high_enough(rollouts, min_score, (n - 1) as nat);
        let spans = rollouts[n - 1].1.spans@;
        lemma_demo_spans(rollouts[n - 1].0, spans, min_score, spans.len());
        let head = demos_of_rollouts(rollouts, min_score, (n - 1) as nat);
        let tail = demo_spans(rollouts[n - 1].0, spans, min_score, spans.len());
        assert forall|k: int| 0 <= k < demos_of_rollouts(rollouts, min_score, n).len() implies {
            let call = #[trigger] demos_of_rollouts(rollouts, min_score, n)[k];
            is_demo(call.0, call.1, min_score)
        } by {
            if k < head.len() {
                assert(demos_of_rollouts(rollouts, min_score, n)[k] == head[k]);
            } else {
                assert(demos_of_rollouts(rollouts, min_score, n)[k] == tail[k - head.len()]);
            }
        }
    }
}

proof fn lemma_demo_spans(rollout: Score, spans: Seq<Span>, min_score: i64, n: nat)
    requires
        n <= spans.len(),
    ensures
        forall|k: int|
            0 <= k < demo_spans(rollout, spans, min_score, n).len() ==> {
                let call = #[trigger] demo_spans(rollout, spans, min_score, n)[k];
                is_demo(call.0, call.1, min_score)
            },
    decreases n,
{
    if n > 0 {
        lemma_demo_spans(rollout, spans, min_score, (n - 1) as nat);
        let before = demo_spans(rollout, spans, min_score, (n - 1) as nat);
        let now = demo_spans(rollout, spans, min_score, n);
        assert forall|k: int| 0 <= k < now.len() implies {
            let call = #[trigger] now[k];
            is_demo(call.0, call.1, min_score)
        } by {
            if k < before.len() {
                assert(now[k] == before[k]);
            }
        }
    }
}

fn rank(cands: &Vec<DemoCandidate>, name: &str) -> (r: Vec<usize>)
    ensures
        r@.len() == ranked(cands@, name@, cands@.len()).len(),
        forall|i: int|
            0 <= i < r@.len() ==> (#[trigger] r@[i]) < cands@.len() && r@[i] == ranked(
                cands@,
                name@,
                cands@.len(),
            )[i],
{
    let mut order: Vec<usize> = Vec::new();
    let mut k: usize = 0;
    while k < cands.len()
        invariant
            k <= cands@.len(),
            order@.len() == ranked(cands@, name@, k as nat).len(),
            forall|i: int|
                0 <= i < order@.len() ==> (#[trigger] order@[i]) < k && order@[i] == ranked(
                    cands@,
                    name@,
                    k as nat,
                )[i],
        decreases cands@.len() - k,
    {
        if text::text_eq(cands[k].predictor.as_str(), name) {
            let ghost prior = ranked(cands@, name@, k as nat);
            let mut p: usize = order.len();
            proof {
                assert(prior.take(p as int) =~= prior);
                assert(insert_by_score(cands@, prior, k as int) =~= insert_by_score(
                    cands@,
                    prior.take(p as int),
                    k as int,
                ) + prior.skip(p as int));
            }
            while p > 0 && cands[k].score.key > cands[order[p - 1]].score.key
                invariant
                    p <= order@.len(),
                    k < cands@.len(),
                    prior.len() == order@.len(),
                    forall|i: int|
                        0 <= i < order@.len() ==> (#[trigger] order@[i]) < k && order@[i]
                            == prior[i],
                    insert_by_score(cands@, prior, k as int) == insert_by_score(
                        cands@,
                        prior.take(p as int),
                        k as int,
                    ) + prior.skip(p as int),
                decreases p,
            {
                proof {
                    let head = prior.take(p as int);
                    assert(head.last() == order@[p - 1]);
                    assert(head.drop_last() =~= prior.take(p - 1));
                    assert(insert_by_score(cands@, prior.take(p - 1), k as int).push(head.last())
                        + prior.skip(p as int) =~= insert_by_score(
                        cands@,
                        prior.take(p - 1),
                        k as int,
                    ) + prior.skip(p - 1));
                }
                p -= 1;
            }
            proof {
                let head = prior.take(p as int);
                if p > 0 {
                    assert(head.last() == order@[p - 1]);
                }
                assert(insert_by_score(cands@, head, k as int) == head.push(k as int));
                assert(head.push(k as int) + prior.skip(p as int) =~= prior.insert(
                    p as int,
                    k as int,
                ));
            }
            order.insert(p, k);
        }
        k += 1;
    }
    order
}

fn keep(cands: &Vec<DemoCandidate>, name: &str, max: usize) -> (r: Vec<JsonMap>)
    ensures
        json::rows_view(r@) == kept_rows(cands@, name@, max as nat),
{
    let order = rank(cands, name);
    let ghost want = ranked(cands@, name@, cands@.len());
    let mut firsts: Vec<usize> = Vec::new();
    let mut i: usize = 0;
    while i < order.len()
        invariant
            i <= order@.len(),
            order@.len() == want.len(),
            forall|k: int|
                0 <= k < order@.len() ==> (#[trigger] order@[k]) < cands@.len() && order@[k]
                    == want[k],
            firsts@.len() == first_of_inputs(cands@, want, i as nat).len(),
            forall|k: int|
                0 <= k < firsts@.len() ==> (#[trigger] firsts@[k]) < cands@.len() && firsts@[k]
                    == first_of_inputs(cands@, want, i as nat)[k],
        decreases order@.len() - i,
    {
        let c = order[i];
        let ghost before = first_of_inputs(cands@, want, i as nat);
        let mut seen: bool = false;
        let mut j: usize = 0;
        while j < firsts.len()
            invariant
                j <= firsts@.len(),
                c < cands@.len(),
                firsts@.len() == before.len(),
                forall|k: int|
                    0 <= k < firsts@.len() ==> (#[trigger] firsts@[k]) < cands@.len() && firsts@[k]
                        == before[k],
                seen == exists|k: int|
                    0 <= k < j && same_input(cands@, #[trigger] before[k], c as int),
            decreases firsts@.len() - j,
        {
            let same = text::text_eq(
                cands[firsts[j]].input_fingerprint.as_str(),
                cands[c].input_fingerprint.as_str(),
            );
            proof {
                assert(firsts@[j as int] == before[j as int]);
                assert(same == same_input(cands@, before[j as int], c as int));
            }
            seen = seen || same;
            j += 1;
        }
        proof {
            assert(order@[i as int] == want[i as int]);
        }
        if !seen {
            firsts.push(c);
        }
        i += 1;
    }
    let ghost all = first_of_inputs(cands@, want, want.len());
    let mut out: Vec<JsonMap> = Vec::new();
    let mut n: usize = 0;
    while n < firsts.len() && n < max
        invariant
            n <= firsts@.len(),
            n <= max,
            out@.len() == n,
            firsts@.len() == all.len(),
            forall|k: int|
                0 <= k < firsts@.len() ==> (#[trigger] firsts@[k]) < cands@.len() && firsts@[k]
                    == all[k],
            forall|k: int|
                0 <= k < n ==> json::members_view((#[trigger] out@[k])@) == json::members_view(
                    cands@[all[k]].row@,
                ),
        decreases firsts@.len() - n,
    {
        let c = firsts[n];
        out.push(json::clone_map(&cands[c].row));
        n += 1;
    }
    proof {
        assert(json::rows_view(out@) =~= kept_rows(cands@, name@, max as nat));
    }
    out
}

/// The demos of each predictor that has any: the best `max_per_predictor` of different
/// inputs, best first.
pub fn select_demos(
    cands: &Vec<DemoCandidate>,
    max_per_predictor: usize,
) -> (r: Vec<(String, Vec<JsonMap>)>)
    ensures
        names::sorted_names(r@),
        forall|n: Seq<char>| #[trigger]
            names::map_of(r@).dom().contains(n) <==> kept_rows(
                cands@,
                n,
                max_per_predictor as nat,
            ).len() > 0,
        forall|n: Seq<char>| #[trigger]
            names::map_of(r@).dom().contains(n) ==> json::rows_view(names::map_of(r@)[n]@)
                == kept_rows(cands@, n, max_per_predictor as nat),
{
    let mut out: Vec<(String, Vec<JsonMap>)> = Vec::new();
    let mut i: usize = 0;
    while i < cands.len()
        invariant
            i <= cands@.len(),
            names::sorted_names(out@),
            forall|n: Seq<char>| #[trigger]
                names::map_of(out@).dom().contains(n) ==> json::rows_view(names::map_of(out@)[n]@)
                    == kept_rows(cands@, n, max_per_predictor as nat) && kept_rows(
                    cands@,
                    n,
                    max_per_predictor as nat,
                ).len() > 0,
            forall|k: int|
                0 <= k < i && kept_rows(
                    cands@,
                    (#[trigger] cands@[k]).predictor@,
                    max_per_predictor as nat,
                ).len() > 0 ==> names::map_of(out@).dom().contains(cands@[k].predictor@),
        decreases cands@.len() - i,
    {
        let rows = keep(cands, cands[i].predictor.as_str(), max_per_predictor);
        proof {
            assert(json::rows_view(rows@).len() == rows@.len());
        }
        if rows.len() > 0 {
            names::put(&mut out, cands[i].predictor.clone(), rows);
        }
        i += 1;
    }
    proof {
        assert forall|n: Seq<char>|
            kept_rows(cands@, n, max_per_predictor as nat).len() > 0 implies #[trigger] names::map_of(
            out@,
        ).dom().contains(n) by {
            kept_demos_are_capped_and_distinct(cands@, n, max_per_predictor as nat);
            let k = kept(cands@, n, max_per_predictor as nat)[0];
            assert(cands@[k].predictor@ == n);
        }
    }
    out
}

/// The scored traces of the first `n` rollouts that have one.
pub open spec fn traced(rollouts: Seq<RolloutOutcome>, n: nat) -> Seq<(Score, Arc<Trace>)>
    decreases n,
{
    if n == 0 || n > rollouts.len() {
        Seq::empty()
    } else {
        match rollouts[n - 1].trace {
            Some(t) => traced(rollouts, (n - 1) as nat).push((rollouts[n - 1].eval.score, t)),
            None => traced(rollouts, (n - 1) as nat),
        }
    }
}

pub fn scored_traces(eval: &CandidateEval) -> (r: Vec<(Score, Arc<Trace>)>)
    ensures
        r@ == traced(eval.rollouts@, eval.rollouts@.len()),
{
    let mut out: Vec<(Score, Arc<Trace>)> = Vec::new();
    let mut i: usize = 0;
    while i < eval.rollouts.len()
        invariant
            i <= eval.rollouts@.len(),
            out@ == traced(eval.rollouts@, i as nat),
        decreases eval.rollouts@.len() - i,
    {
        match &eval.rollouts[i].trace {
            Some(t) => out.push((eval.rollouts[i].eval.score, trace::share(t))),
            None => {},
        }
        i += 1;
    }
    out
}

/// The slot that sets demos alone.
pub open spec fn demo_slot(rows: Seq<Seq<(Seq<char>, JsonView)>>) -> SlotView {
    SlotView { instruction: None, clear_instruction: false, demos: Some(rows) }
}

/// The content of the candidate that gives each predictor the demos that are kept for it.
pub open spec fn demo_slots(cands: Seq<DemoCandidate>, max: nat) -> Map<Seq<char>, SlotView> {
    Map::new(
        |n: Seq<char>| kept_rows(cands, n, max).len() > 0,
        |n: Seq<char>| demo_slot(kept_rows(cands, n, max)),
    )
}

/// How many demos are kept for each predictor that has any.
pub open spec fn demo_counts(cands: Seq<DemoCandidate>, max: nat) -> Map<Seq<char>, usize> {
    Map::new(
        |n: Seq<char>| kept_rows(cands, n, max).len() > 0,
        |n: Seq<char>| kept_rows(cands, n, max).len() as usize,
    )
}

/// The candidate of the demos that are kept.
pub fn demo_candidate(cands: &Vec<DemoCandidate>, max: usize) -> (r: Candidate)
    ensures
        r.wf(),
        r@ == demo_slots(cands@, max as nat),
{
    let demos = select_demos(cands, max);
    let mut out = Candidate::new();
    let mut i: usize = 0;
    while i < demos.len()
        invariant
            i <= demos@.len(),
            out.wf(),
            names::sorted_names(demos@),
            forall|n: Seq<char>| #[trigger]
                out@.dom().contains(n) ==> exists|k: int| k < i && names::is_at(demos@, n, k),
            forall|k: int|
                0 <= k < i ==> out@.dom().contains((#[trigger] demos@[k]).0@) && out@[demos@[k].0@]
                    == demo_slot(json::rows_view(demos@[k].1@)),
        decreases demos@.len() - i,
    {
        let ghost before = out@;
        proof {
            if before.dom().contains(demos@[i as int].0@) {
                let k = choose|k: int|
                    k < i && names::is_at(demos@, demos@[i as int].0@, k);
                names::lemma_one_position(demos@, k, i as int);
            }
        }
        out.set_demos(demos[i].0.as_str(), json::clone_rows(&demos[i].1));
        proof {
            assert forall|n: Seq<char>| #[trigger] out@.dom().contains(n) implies exists|k: int|
                k < i + 1 && names::is_at(demos@, n, k) by {
                if n == demos@[i as int].0@ {
                    assert(names::is_at(demos@, n, i as int));
                } else {
                    let k = choose|k: int| k < i && names::is_at(demos@, n, k);
                    assert(k < i + 1 && names::is_at(demos@, n, k));
                }
            }
            assert forall|k: int| 0 <= k < i + 1 implies out@.dom().contains(
                (#[trigger] demos@[k]).0@,
            ) && out@[demos@[k].0@] == demo_slot(json::rows_view(demos@[k].1@)) by {
                if k < i && demos@[k].0@ == demos@[i as int].0@ {
                    names::lemma_one_position(demos@, k, i as int);
                }
            }
        }
        i += 1;
    }
    proof {
        let want = demo_slots(cands@, max as nat);
        assert forall|n: Seq<char>| out@.dom().contains(n) == want.dom().contains(n) by {
            if out@.dom().contains(n) {
                let k = choose|k: int| k < i && names::is_at(demos@, n, k);
                assert(names::is_at(demos@, n, k));
                assert(names::map_of(demos@).dom().contains(n));
            }
            if want.dom().contains(n) {
                assert(names::map_of(demos@).dom().contains(n));
                let k = choose|k: int| names::is_at(demos@, n, k);
                assert(demos@[k].0@ == n);
            }
        }
        assert forall|n: Seq<char>| out@.dom().contains(n) implies out@[n] == want[n] by {
            let k = choose|k: int| k < i && names::is_at(demos@, n, k);
            names::lemma_map_at(demos@, k);
            assert(demos@[k].0@ == n);
            assert(names::map_of(demos@).dom().contains(n));
        }
        assert(out@ =~= want);
    }
    out
}

/// How many demos are kept for each predictor that has any.
pub fn count_demos(cands: &Vec<DemoCandidate>, max: usize) -> (r: Vec<(String, usize)>)
    ensures
        names::sorted_names(r@),
        names::map_of(r@) == demo_counts(cands@, max as nat),
{
    let demos = select_demos(cands, max);
    let mut out: Vec<(String, usize)> = Vec::new();
    let mut i: usize = 0;
    while i < demos.len()
        invariant
            i <= demos@.len(),
            names::sorted_names(demos@),
            out@.len() == i,
            forall|k: int|
                0 <= k < i ==> (#[trigger] out@[k]).0 == demos@[k].0 && out@[k].1
                    == demos@[k].1@.len(),
        decreases demos@.len() - i,
    {
        out.push((demos[i].0.clone(), demos[i].1.len()));
        i += 1;
    }
    proof {
        assert forall|a: int, b: int| 0 <= a < b < out@.len() implies text::lex_less(
            #[trigger] out@[a].0@,
            #[trigger] out@[b].0@,
        ) by {
            assert(out@[a].0 == demos@[a].0 && out@[b].0 == demos@[b].0);
        }
        let want = demo_counts(cands@, max as nat);
        let got = names::map_of(out@);
        assert forall|n: Seq<char>| got.dom().contains(n) == want.dom().contains(n) by {
            if got.dom().contains(n) {
                let k = choose|k: int| names::is_at(out@, n, k);
                assert(names::is_at(demos@, n, k));
                assert(names::map_of(demos@).dom().contains(n));
            }
            if want.dom().contains(n) {
                assert(names::map_of(demos@).dom().contains(n));
                let k = choose|k: int| names::is_at(demos@, n, k);
                assert(names::is_at(out@, n, k));
            }
        }
        assert forall|n: Seq<char>| got.dom().contains(n) implies got[n] == want[n] by {
            let k = choose|k: int| names::is_at(out@, n, k);
            assert(names::is_at(demos@, n, k));
            names::lemma_map_at(demos@, k);
            names::lemma_map_at(out@, k);
            assert(names::map_of(demos@).dom().contains(n));
            assert(json::rows_view(demos@[k].1@).len() == demos@[k].1@.len());
        }
        assert(got =~= want);
    }
    out
}

/// Where the trace of a rollout stands among the traces.
pub proof fn lemma_traced_has(rollouts: Seq<RolloutOutcome>, n: nat, i: int) -> (k: int)
    requires
        0 <= i < n <= rollouts.len(),
        rollouts[i].trace is Some,
    ensures
        0 <= k < traced(rollouts, n).len(),
        traced(rollouts, n)[k] == (rollouts[i].eval.score, rollouts[i].trace->0),
    decreases n,
{
    if i == n - 1 {
        traced(rollouts, (n - 1) as nat).len() as int
    } else {
        lemma_traced_has(rollouts, (n - 1) as nat, i)
    }
}

/// The rollout that a trace is of.
pub proof fn lemma_traced_is_of(rollouts: Seq<RolloutOutcome>, n: nat, k: int) -> (i: int)
    requires
        n <= rollouts.len(),
        0 <= k < traced(rollouts, n).len(),
    ensures
        0 <= i < n,
        rollouts[i].trace is Some,
        traced(rollouts, n)[k] == (rollouts[i].eval.score, rollouts[i].trace->0),
    decreases n,
{
    if rollouts[n - 1].trace is Some && k == traced(rollouts, (n - 1) as nat).len() {
        n - 1
    } else {
        lemma_traced_is_of(rollouts, (n - 1) as nat, k)
    }
}

proof fn lemma_span_is_of(rollout: Score, spans: Seq<Span>, min_score: i64, n: nat, k: int) -> (b: int)
    requires
        n <= spans.len(),
        0 <= k < demo_spans(rollout, spans, min_score, n).len(),
    ensures
        0 <= b < n,
        is_demo(rollout, spans[b], min_score),
        demo_spans(rollout, spans, min_score, n)[k] == (rollout, spans[b]),
    decreases n,
{
    let before = demo_spans(rollout, spans, min_score, (n - 1) as nat);
    if is_demo(rollout, spans[n - 1], min_score) && k == before.len() {
        n - 1
    } else {
        lemma_span_is_of(rollout, spans, min_score, (n - 1) as nat, k)
    }
}

proof fn lemma_span_has(rollout: Score, spans: Seq<Span>, min_score: i64, n: nat, b: int) -> (k: int)
    requires
        0 <= b < n <= spans.len(),
        is_demo(rollout, spans[b], min_score),
    ensures
        0 <= k < demo_spans(rollout, spans, min_score, n).len(),
        demo_spans(rollout, spans, min_score, n)[k] == (rollout, spans[b]),
    decreases n,
{
    if b == n - 1 {
        demo_spans(rollout, spans, min_score, (n - 1) as nat).len() as int
    } else {
        lemma_span_has(rollout, spans, min_score, (n - 1) as nat, b)
    }
}

/// The call that a demonstration is from.
pub proof fn lemma_demo_is_of(
    rollouts: Seq<(Score, Arc<Trace>)>,
    min_score: i64,
    n: nat,
    k: int,
) -> (at: (int, int))
    requires
        n <= rollouts.len(),
        0 <= k < demos_of_rollouts(rollouts, min_score, n).len(),
    ensures
        0 <= at.0 < n,
        0 <= at.1 < rollouts[at.0].1.spans@.len(),
        is_demo(rollouts[at.0].0, rollouts[at.0].1.spans@[at.1], min_score),
        demos_of_rollouts(rollouts, min_score, n)[k] == (
            rollouts[at.0].0,
            rollouts[at.0].1.spans@[at.1],
        ),
    decreases n,
{
    let before = demos_of_rollouts(rollouts, min_score, (n - 1) as nat);
    let spans = rollouts[n - 1].1.spans@;
    if k < before.len() {
        lemma_demo_is_of(rollouts, min_score, (n - 1) as nat, k)
    } else {
        let b = lemma_span_is_of(
            rollouts[n - 1].0,
            spans,
            min_score,
            spans.len(),
            k - before.len(),
        );
        (n - 1, b)
    }
}

/// Where the demonstration of a call stands.
pub proof fn lemma_demo_has(
    rollouts: Seq<(Score, Arc<Trace>)>,
    min_score: i64,
    n: nat,
    a: int,
    b: int,
) -> (k: int)
    requires
        0 <= a < n <= rollouts.len(),
        0 <= b < rollouts[a].1.spans@.len(),
        is_demo(rollouts[a].0, rollouts[a].1.spans@[b], min_score),
    ensures
        0 <= k < demos_of_rollouts(rollouts, min_score, n).len(),
        demos_of_rollouts(rollouts, min_score, n)[k] == (
            rollouts[a].0,
            rollouts[a].1.spans@[b],
        ),
    decreases n,
{
    let before = demos_of_rollouts(rollouts, min_score, (n - 1) as nat);
    let spans = rollouts[n - 1].1.spans@;
    if a == n - 1 {
        let k = lemma_span_has(rollouts[a].0, spans, min_score, spans.len(), b);
        before.len() + k
    } else {
        lemma_demo_has(rollouts, min_score, (n - 1) as nat, a, b)
    }
}

/// A call that ended without an error and has a score of at least the minimum, its own or else
/// that of its rollout.
pub open spec fn good_call(rollout: Score, span: Span, min_score: i64) -> bool {
    &&& span.complete
    &&& span.error is None
    &&& span.input is Some
    &&& span.output is Some
    &&& span.eval is Some ==> span.eval->0.score.key >= min_score
    &&& span.eval is None ==> rollout.key >= min_score
}

/// The row shows the call: every output field, every input field that no output field has the
/// name of, and nothing else.
pub open spec fn shows_call(row: Seq<(Seq<char>, JsonView)>, span: Span) -> bool {
    forall|m: (Seq<char>, JsonView)| #[trigger]
        row.contains(m) <==> {
            ||| json::members_view(span.output->0@).contains(m)
            ||| json::members_view(span.input->0@).contains(m) && forall|k: int|
                0 <= k < span.output->0@.len() ==> (#[trigger] span.output->0@[k]).0@ != m.0
        }
}

/// The row of a call shows it.
pub proof fn lemma_row_shows_call(span: Span)
    requires
        json::distinct_names(json::members_view(span.input->0@)),
        json::distinct_names(json::members_view(span.output->0@)),
    ensures
        shows_call(demo_row(span.input->0, span.output->0), span),
{
    let input = json::members_view(span.input->0@);
    let output = json::members_view(span.output->0@);
    let row = demo_row(span.input->0, span.output->0);
    assert forall|m: (Seq<char>, JsonView)| #[trigger] row.contains(m) <==> {
        ||| output.contains(m)
        ||| input.contains(m) && forall|k: int|
            0 <= k < span.output->0@.len() ==> (#[trigger] span.output->0@[k]).0@ != m.0
    } by {
        json_laws::lemma_members_written_over(input, output, m);
        let free = forall|k: int|
            0 <= k < span.output->0@.len() ==> (#[trigger] span.output->0@[k]).0@ != m.0;
        if free {
            assert forall|k: int| 0 <= k < output.len() implies (#[trigger] output[k]).0 != m.0 by {
                assert(span.output->0@[k].0@ != m.0);
            }
        } else if row.contains(m) && !output.contains(m) {
            let k = choose|k: int|
                0 <= k < span.output->0@.len() && (#[trigger] span.output->0@[k]).0@ == m.0;
            json_laws::lemma_name_written_over(input, output, k, m);
        }
    }
}

/// Every demonstration of a predictor shows one of its own calls, and that was a good one.
pub proof fn demos_show_good_calls(
    rollouts: &Vec<(Score, Arc<Trace>)>,
    min_score: i64,
    cands: &Vec<DemoCandidate>,
    max: usize,
    demos: Vec<(String, Vec<JsonMap>)>,
    name: Seq<char>,
    j: int,
)
    requires
        call_ensures(collect_demo_candidates, (rollouts, min_score), *cands),
        call_ensures(select_demos, (cands, max), demos),
        names::map_of(demos@).dom().contains(name),
        0 <= j < names::map_of(demos@)[name]@.len(),
        forall|a: int, b: int|
            0 <= a < rollouts@.len() && 0 <= b < rollouts@[a].1.spans@.len()
                && rollouts@[a].1.spans@[b].input is Some && rollouts@[a].1.spans@[b].output is Some
                ==> json::distinct_names(
                json::members_view((#[trigger] rollouts@[a].1.spans@[b]).input->0@),
            ) && json::distinct_names(json::members_view(rollouts@[a].1.spans@[b].output->0@)),
    ensures
        names::map_of(demos@)[name]@.len() <= max,
        exists|a: int, b: int|
            0 <= a < rollouts@.len() && 0 <= b < rollouts@[a].1.spans@.len() && (
            #[trigger] rollouts@[a].1.spans@[b]).component@ == name && good_call(
                rollouts@[a].0,
                rollouts@[a].1.spans@[b],
                min_score,
            ) && shows_call(
                json::members_view(names::map_of(demos@)[name]@[j]@),
                rollouts@[a].1.spans@[b],
            ),
{
    let rows = names::map_of(demos@)[name]@;
    let at = kept(cands@, name, max as nat);
    kept_demos_are_capped_and_distinct(cands@, name, max as nat);
    assert(json::rows_view(rows) == kept_rows(cands@, name, max as nat));
    assert(json::rows_view(rows).len() == rows.len());
    let c = at[j];
    assert(json::members_view(rows[j]@) == json::rows_view(rows)[j]);
    assert(json::rows_view(rows)[j] == json::members_view(cands@[c].row@));
    assert(0 <= at[j] < cands@.len() && cands@[at[j]].predictor@ == name);
    let from = lemma_demo_is_of(rollouts@, min_score, rollouts@.len(), c);
    let span = rollouts@[from.0].1.spans@[from.1];
    assert(made_from(cands@[c], rollouts@[from.0].0, span));
    lemma_row_shows_call(span);
    assert(rollouts@[from.0].1.spans@[from.1].component@ == name);
}

/// A candidate that comes before another: it scores more, or as much and came first.
pub open spec fn ahead(cands: Seq<DemoCandidate>, a: int, b: int) -> bool {
    cands[a].score.key > cands[b].score.key || cands[a].score.key == cands[b].score.key && a < b
}

proof fn lemma_insert_sorts(cands: Seq<DemoCandidate>, order: Seq<int>, k: int)
    requires
        forall|i: int| 0 <= i < order.len() ==> #[trigger] order[i] < k,
        forall|i: int, j: int|
            0 <= i < j < order.len() ==> ahead(cands, #[trigger] order[i], #[trigger] order[j]),
    ensures
        forall|i: int, j: int|
            0 <= i < j < order.len() + 1 ==> ahead(
                cands,
                #[trigger] insert_by_score(cands, order, k)[i],
                #[trigger] insert_by_score(cands, order, k)[j],
            ),
        insert_by_score(cands, order, k).contains(k),
        forall|x: int|
            order.contains(x) ==> #[trigger] insert_by_score(cands, order, k).contains(x),
    decreases order.len(),
{
    let r = insert_by_score(cands, order, k);
    lemma_insert_by_score(cands, order, k);
    if order.len() == 0 || cands[k].score.key <= cands[order.last()].score.key {
        assert(r[order.len() as int] == k);
        assert forall|i: int, j: int| 0 <= i < j < order.len() + 1 implies ahead(
            cands,
            #[trigger] r[i],
            #[trigger] r[j],
        ) by {
            assert(r[i] == order[i]);
            if j < order.len() {
                assert(r[j] == order[j]);
            } else if i < order.len() - 1 {
                assert(ahead(cands, order[i], order[order.len() - 1]));
            }
        }
        assert forall|x: int| order.contains(x) implies #[trigger] r.contains(x) by {
            let i = order.index_of(x);
            assert(r[i] == x);
        }
    } else {
        let front = order.drop_last();
        let head = insert_by_score(cands, front, k);
        assert forall|i: int| 0 <= i < front.len() implies #[trigger] front[i] < k by {
            assert(order[i] < k);
        }
        lemma_insert_sorts(cands, front, k);
        lemma_insert_by_score(cands, front, k);
        assert(r == head.push(order.last()));
        assert forall|i: int, j: int| 0 <= i < j < order.len() + 1 implies ahead(
            cands,
            #[trigger] r[i],
            #[trigger] r[j],
        ) by {
            assert(r[i] == head[i]);
            if j < head.len() {
                assert(r[j] == head[j]);
            } else if head[i] != k {
                let f = front.index_of(head[i]);
                assert(order[f] == head[i]);
                assert(ahead(cands, order[f], order[order.len() - 1]));
            }
        }
        let at = head.index_of(k);
        assert(r[at] == k);
        assert forall|x: int| order.contains(x) implies #[trigger] r.contains(x) by {
            let i = order.index_of(x);
            if i < front.len() {
                assert(front[i] == x);
                assert(front.contains(x));
                assert(head.contains(x));
                let h = head.index_of(x);
                assert(r[h] == x);
            } else {
                assert(r[head.len() as int] == x);
            }
        }
    }
}

proof fn lemma_ranked_sorted(cands: Seq<DemoCandidate>, name: Seq<char>, n: nat)
    requires
        n <= cands.len(),
    ensures
        forall|i: int, j: int|
            0 <= i < j < ranked(cands, name, n).len() ==> ahead(
                cands,
                #[trigger] ranked(cands, name, n)[i],
                #[trigger] ranked(cands, name, n)[j],
            ),
        forall|k: int|
            0 <= k < n && cands[k].predictor@ == name ==> #[trigger] ranked(
                cands,
                name,
                n,
            ).contains(k),
    decreases n,
{
    if n > 0 {
        let before = ranked(cands, name, (n - 1) as nat);
        lemma_ranked_sorted(cands, name, (n - 1) as nat);
        lemma_ranked(cands, name, (n - 1) as nat);
        if cands[n - 1].predictor@ == name {
            assert forall|i: int| 0 <= i < before.len() implies #[trigger] before[i] < n - 1 by {}
            lemma_insert_sorts(cands, before, n - 1);
            lemma_insert_by_score(cands, before, n - 1);
        }
    }
}

proof fn lemma_firsts_sorted(cands: Seq<DemoCandidate>, order: Seq<int>, n: nat, p: int)
    requires
        0 <= p < n <= order.len(),
        forall|i: int, j: int|
            0 <= i < j < order.len() ==> ahead(cands, #[trigger] order[i], #[trigger] order[j]),
    ensures
        forall|i: int, j: int|
            0 <= i < j < first_of_inputs(cands, order, n).len() ==> ahead(
                cands,
                #[trigger] first_of_inputs(cands, order, n)[i],
                #[trigger] first_of_inputs(cands, order, n)[j],
            ),
        forall|i: int|
            0 <= i < first_of_inputs(cands, order, n).len() ==> order.take(n as int).contains(
                #[trigger] first_of_inputs(cands, order, n)[i],
            ),
        exists|i: int|
            0 <= i < first_of_inputs(cands, order, n).len() && same_input(
                cands,
                #[trigger] first_of_inputs(cands, order, n)[i],
                order[p],
            ) && (first_of_inputs(cands, order, n)[i] == order[p] || ahead(
                cands,
                first_of_inputs(cands, order, n)[i],
                order[p],
            )),
    decreases n,
{
    let before = first_of_inputs(cands, order, (n - 1) as nat);
    let now = first_of_inputs(cands, order, n);
    if n == 1 {
        assert(before.len() == 0);
        assert(now[0] == order[0]);
        assert(order.take(1)[0] == order[0]);
        assert(same_input(cands, now[0], order[p]));
    } else {
        let q = if p < n - 1 {
            p
        } else {
            0
        };
        lemma_firsts_sorted(cands, order, (n - 1) as nat, q);
        assert forall|i: int| 0 <= i < before.len() implies order.take(n as int).contains(
            #[trigger] before[i],
        ) && ahead(cands, before[i], order[n - 1]) by {
            let t = order.take(n - 1);
            let x = t.index_of(before[i]);
            assert(order.take(n as int)[x] == before[i]);
            assert(order[x] == before[i]);
        }
        assert(order.take(n as int)[n - 1] == order[n - 1]);
        assert forall|i: int| 0 <= i < now.len() implies order.take(n as int).contains(
            #[trigger] now[i],
        ) by {
            if i < before.len() {
                assert(now[i] == before[i]);
            }
        }
        assert forall|i: int, j: int| 0 <= i < j < now.len() implies ahead(
            cands,
            #[trigger] now[i],
            #[trigger] now[j],
        ) by {
            assert(now[i] == before[i]);
            if j < before.len() {
                assert(now[j] == before[j]);
            }
        }
        if p < n - 1 {
            let i = choose|i: int|
                0 <= i < before.len() && same_input(cands, #[trigger] before[i], order[p]) && (
                before[i] == order[p] || ahead(cands, before[i], order[p]));
            assert(now[i] == before[i]);
        } else if exists|j: int|
            0 <= j < before.len() && same_input(cands, #[trigger] before[j], order[n - 1]) {
            let j = choose|j: int|
                0 <= j < before.len() && same_input(cands, #[trigger] before[j], order[n - 1]);
            assert(now[j] == before[j]);
        } else {
            assert(now[before.len() as int] == order[n - 1]);
            assert(same_input(cands, now[before.len() as int], order[p]));
        }
    }
}

/// The best demonstrations are kept: where a candidate does not make it, one with the same input
/// that scores as much did, or all places are taken by such that score as much.
pub proof fn the_best_demos_are_kept(
    cands: &Vec<DemoCandidate>,
    max: usize,
    demos: Vec<(String, Vec<JsonMap>)>,
    k: int,
)
    requires
        call_ensures(select_demos, (cands, max), demos),
        max > 0,
        0 <= k < cands@.len(),
    ensures
        names::map_of(demos@).dom().contains(cands@[k].predictor@),
        ({
            let rows = names::map_of(demos@)[cands@[k].predictor@]@;
            ||| exists|j: int, m: int|
                0 <= j < rows.len() && 0 <= m < cands@.len() && json::members_view(
                    (#[trigger] rows[j])@,
                ) == json::members_view((#[trigger] cands@[m]).row@) && cands@[m].predictor@
                    == cands@[k].predictor@ && cands@[m].input_fingerprint@
                    == cands@[k].input_fingerprint@ && cands@[m].score.key >= cands@[k].score.key
            ||| rows.len() == max && forall|j: int|
                0 <= j < rows.len() ==> exists|m: int|
                    0 <= m < cands@.len() && json::members_view((#[trigger] rows[j])@)
                        == json::members_view((#[trigger] cands@[m]).row@) && cands@[m].predictor@
                        == cands@[k].predictor@ && cands@[m].score.key >= cands@[k].score.key
        }),
{
    let name = cands@[k].predictor@;
    let order = ranked(cands@, name, cands@.len());
    let firsts = first_of_inputs(cands@, order, order.len());
    let at = kept(cands@, name, max as nat);
    lemma_ranked_sorted(cands@, name, cands@.len());
    assert(order.contains(k));
    let p = order.index_of(k);
    lemma_firsts_sorted(cands@, order, order.len(), p);
    lemma_firsts(cands@, order, order.len());
    lemma_ranked(cands@, name, cands@.len());
    let i = choose|i: int|
        0 <= i < firsts.len() && same_input(cands@, #[trigger] firsts[i], order[p]) && (firsts[i]
            == order[p] || ahead(cands@, firsts[i], order[p]));
    kept_demos_are_capped_and_distinct(cands@, name, max as nat);
    assert(kept_rows(cands@, name, max as nat).len() == at.len());
    assert(at.len() > 0);
    assert(names::map_of(demos@).dom().contains(name));
    let rows = names::map_of(demos@)[name]@;
    assert(json::rows_view(rows) == kept_rows(cands@, name, max as nat));
    assert(json::rows_view(rows).len() == rows.len());
    assert forall|j: int| 0 <= j < rows.len() implies json::members_view((#[trigger] rows[j])@)
        == json::members_view(cands@[at[j]].row@) && 0 <= at[j] < cands@.len()
        && cands@[at[j]].predictor@ == name by {
        assert(json::rows_view(rows)[j] == json::members_view(rows[j]@));
    }
    if i < at.len() {
        assert(at[i] == firsts[i]);
        assert(json::members_view(rows[i]@) == json::members_view(cands@[at[i]].row@));
    } else {
        assert forall|j: int| 0 <= j < rows.len() implies exists|m: int|
            0 <= m < cands@.len() && json::members_view((#[trigger] rows[j])@)
                == json::members_view((#[trigger] cands@[m]).row@) && cands@[m].predictor@ == name
                && cands@[m].score.key >= cands@[k].score.key by {
            assert(at[j] == firsts[j]);
            assert(ahead(cands@, firsts[j], firsts[i]));
            assert(json::members_view(rows[j]@) == json::members_view(cands@[at[j]].row@));
        }
    }
}

/// Something is kept for a predictor that has a candidate.
pub proof fn lemma_some_are_kept(cands: Seq<DemoCandidate>, max: nat, k: int)
    requires
        max > 0,
        0 <= k < cands.len(),
    ensures
        kept_rows(cands, cands[k].predictor@, max).len() > 0,
{
    let name = cands[k].predictor@;
    let order = ranked(cands, name, cands.len());
    lemma_ranked_sorted(cands, name, cands.len());
    assert(order.contains(k));
    lemma_firsts_sorted(cands, order, order.len(), order.index_of(k));
}

/// The fingerprint of an input shows each of its fields, name and value: an input that differs in
/// what a field says is not taken for another by leaving the field out.
pub proof fn fingerprints_show_every_field(input: &JsonMap, r: String, i: int)
    requires
        call_ensures(input_fingerprint, (input,), r),
        0 <= i < input@.len(),
    ensures
        text::has_text(
            r@,
            json::json_text(JsonView::Array(seq![JsonView::Str(input@[i].0@), input@[i].1@])),
        ),
{
    let view = json::members_view(input@);
    let keys = json::keys_of(view);
    let order = names::key_order(keys, view.len());
    names::lemma_key_order(keys, view.len());
    assert(order.contains(i));
    let k = order.index_of(i);
    let pairs = sorted_pairs(view);
    assert(pairs[k] == JsonView::Array(seq![JsonView::Str(view[i].0), view[i].1]));
    json_laws::lemma_item_is_written(pairs, k);
}

/// The order in which the fields of an input come does not matter.
pub proof fn fingerprints_ignore_the_order_of_fields(
    a: &JsonMap,
    b: &JsonMap,
    x: String,
    y: String,
)
    requires
        call_ensures(input_fingerprint, (a,), x),
        call_ensures(input_fingerprint, (b,), y),
        a@.len() == b@.len(),
        json::distinct_names(json::members_view(a@)),
        json::distinct_names(json::members_view(b@)),
        forall|i: int|
            0 <= i < a@.len() ==> json::members_view(b@).contains(
                #[trigger] json::members_view(a@)[i],
            ),
        forall|j: int|
            0 <= j < b@.len() ==> json::members_view(a@).contains(
                #[trigger] json::members_view(b@)[j],
            ),
    ensures
        x@ == y@,
{
    let u = json::members_view(a@);
    let v = json::members_view(b@);
    assert forall|i: int| 0 <= i < u.len() implies json::keys_of(v).contains(
        (#[trigger] u[i]).0,
    ) by {
        let j = v.index_of(u[i]);
        assert(json::keys_of(v)[j] == u[i].0);
    }
    assert forall|j: int| 0 <= j < v.len() implies json::keys_of(u).contains(
        (#[trigger] v[j]).0,
    ) by {
        let i = u.index_of(v[j]);
        assert(json::keys_of(u)[i] == v[j].0);
    }
    json::lemma_same_names(u, v);
    let p = names::key_order(json::keys_of(u), u.len());
    let q = names::key_order(json::keys_of(v), v.len());
    assert forall|k: int| 0 <= k < p.len() implies u[#[trigger] p[k]] == v[q[k]] by {
        assert(u[p[k]].0 == v[q[k]].0);
        let j = v.index_of(u[p[k]]);
        assert(v[j] == u[p[k]]);
        if j < q[k] {
            assert(v[j].0 != v[q[k]].0);
        } else if q[k] < j {
            assert(v[q[k]].0 != v[j].0);
        }
    }
    assert(sorted_pairs(u) =~= sorted_pairs(v)) by {
        assert forall|k: int| 0 <= k < p.len() implies sorted_pairs(u)[k] == sorted_pairs(v)[k] by {
            assert(u[p[k]] == v[q[k]]);
        }
    }
}

/// The traces that demos are taken from are those of the rollouts, each with its own score.
pub proof fn traces_keep_their_scores(
    eval: &CandidateEval,
    r: Vec<(Score, Arc<Trace>)>,
    i: int,
    k: int,
)
    requires
        call_ensures(scored_traces, (eval,), r),
    ensures
        0 <= i < eval.rollouts@.len() && eval.rollouts@[i].trace is Some ==> r@.contains(
            (eval.rollouts@[i].eval.score, eval.rollouts@[i].trace->0),
        ),
        0 <= k < r@.len() ==> exists|j: int|
            0 <= j < eval.rollouts@.len() && (#[trigger] eval.rollouts@[j]).trace == Some(r@[k].1)
                && eval.rollouts@[j].eval.score == r@[k].0,
{
    let n = eval.rollouts@.len();
    if 0 <= i < n && eval.rollouts@[i].trace is Some {
        let at = lemma_traced_has(eval.rollouts@, n, i);
        assert(r@[at] == (eval.rollouts@[i].eval.score, eval.rollouts@[i].trace->0));
    }
    if 0 <= k < r@.len() {
        let j = lemma_traced_is_of(eval.rollouts@, n, k);
        assert(eval.rollouts@[j].trace == Some(r@[k].1));
    }
}

/// The predictors that are reported to have demos are those that have some, with as many as are
/// reported and none with more than allowed.
pub proof fn reported_demos_are_those_of_the_candidate(
    cands: &Vec<DemoCandidate>,
    max: usize,
    candidate: Candidate,
    counts: Vec<(String, usize)>,
    name: Seq<char>,
)
    requires
        call_ensures(demo_candidate, (cands, max), candidate),
        call_ensures(count_demos, (cands, max), counts),
    ensures
        candidate@.dom().contains(name) <==> names::map_of(counts@).dom().contains(name),
        candidate@.dom().contains(name) ==> {
            &&& candidate@[name].demos is Some
            &&& candidate@[name].demos->0.len() == names::map_of(counts@)[name]
            &&& 0 < names::map_of(counts@)[name] <= max
            &&& candidate@[name].instruction is None
            &&& !candidate@[name].clear_instruction
        },
{
    kept_demos_are_capped_and_distinct(cands@, name, max as nat);
}

} // verus!
