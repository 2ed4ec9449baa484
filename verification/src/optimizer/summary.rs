//! Rollouts put into words for a reflecting model.

use vstd::prelude::*;

use crate::json;
use crate::json::{JsonMap, JsonView};
use crate::optimizer::rollouts::{CandidateEval, RolloutOutcome};
use crate::text;
use crate::text_laws;
use crate::trace::{Eval, Span, SpanEvent, Trace};

verus! {

/// A map as text, a dash when there is none.
pub open spec fn map_text(map: Option<JsonMap>) -> Seq<char> {
    match map {
        Some(m) => json::json_text(JsonView::Object(json::members_view(m@))),
        None => "-"@,
    }
}

/// The error of a call as text: what the model sent, or the message when it sent nothing.
pub open spec fn error_text(span: Span) -> Seq<char> {
    match span.error {
        Some(e) => "<"@ + e.kind@ + ": "@ + text::truncated(
            text::or_text(span.raw_output, e.message@),
            500,
        ) + ">"@,
        None => Seq::empty(),
    }
}

/// The output of a call: its fields, or else its error, or else a dash.
pub open spec fn output_text(span: Span) -> Seq<char> {
    if span.output is Some {
        map_text(span.output)
    } else if span.error is Some {
        error_text(span)
    } else {
        "-"@
    }
}

fn push_map(out: &mut String, map: &Option<JsonMap>)
    ensures
        final(out)@ == old(out)@ + map_text(*map),
{
    match map {
        Some(m) => {
            let object = json::object(json::clone_map(m));
            json::push_json(out, &object);
        },
        None => out.append("-"),
    }
}

fn push_error(out: &mut String, span: &Span)
    ensures
        final(out)@ == old(out)@ + error_text(*span),
{
    match &span.error {
        Some(e) => {
            let shown = match &span.raw_output {
                Some(raw) => text::truncate_str(raw.as_str(), 500),
                None => text::truncate_str(e.message.as_str(), 500),
            };
            out.append("<");
            out.append(e.kind.as_str());
            out.append(": ");
            out.append(shown.as_str());
            out.append(">");
            proof {
                assert(out@ =~= old(out)@ + error_text(*span));
            }
        },
        None => {
            proof {
                assert(out@ =~= old(out)@ + error_text(*span));
            }
        },
    }
}

fn push_output(out: &mut String, span: &Span)
    ensures
        final(out)@ == old(out)@ + output_text(*span),
{
    if span.output.is_some() {
        push_map(out, &span.output);
    } else if span.error.is_some() {
        push_error(out, span);
    } else {
        out.append("-");
    }
}

/// `call 3: input=..; output=..`, with a line break.
pub open spec fn call_text(span: Span) -> Seq<char> {
    "call "@ + text::decimal(span.seq as nat) + ": input="@ + map_text(span.input) + "; output="@
        + output_text(span) + "\n"@
}

fn push_call(out: &mut String, span: &Span)
    ensures
        final(out)@ == old(out)@ + call_text(*span),
{
    out.append("call ");
    text::push_decimal(out, span.seq);
    out.append(": input=");
    push_map(out, &span.input);
    out.append("; output=");
    push_output(out, span);
    out.append("\n");
    proof {
        assert(out@ =~= old(out)@ + call_text(*span));
    }
}

/// The line of a tool run; other events have none.
pub open spec fn event_text(event: SpanEvent) -> Seq<char> {
    match event {
        SpanEvent::ToolRun { name, result, error } => "    tool "@ + name@ + ": "@
            + text::truncated(result@, 200) + (match error {
            Some(e) => " (error: "@ + e@ + ")"@,
            None => Seq::empty(),
        }) + "\n"@,
        SpanEvent::Other => Seq::empty(),
    }
}

pub open spec fn events_text(events: Seq<SpanEvent>, n: nat) -> Seq<char>
    decreases n,
{
    if n == 0 || n > events.len() {
        Seq::empty()
    } else {
        events_text(events, (n - 1) as nat) + event_text(events[n - 1])
    }
}

fn push_event(out: &mut String, event: &SpanEvent)
    ensures
        final(out)@ == old(out)@ + event_text(*event),
{
    match event {
        SpanEvent::ToolRun { name, result, error } => {
            let shown = text::truncate_str(result.as_str(), 200);
            out.append("    tool ");
            out.append(name.as_str());
            out.append(": ");
            out.append(shown.as_str());
            match error {
                Some(e) => {
                    out.append(" (error: ");
                    out.append(e.as_str());
                    out.append(")");
                },
                None => {},
            }
            out.append("\n");
            proof {
                assert(out@ =~= old(out)@ + event_text(*event));
            }
        },
        SpanEvent::Other => {
            proof {
                assert(out@ =~= old(out)@ + event_text(*event));
            }
        },
    }
}

fn push_events(out: &mut String, events: &Vec<SpanEvent>)
    ensures
        final(out)@ == old(out)@ + events_text(events@, events@.len()),
{
    let mut i: usize = 0;
    proof {
        assert(out@ =~= old(out)@ + events_text(events@, 0));
    }
    while i < events.len()
        invariant
            i <= events@.len(),
            out@ == old(out)@ + events_text(events@, i as nat),
        decreases events@.len() - i,
    {
        push_event(out, &events[i]);
        i += 1;
        proof {
            assert(out@ =~= old(out)@ + events_text(events@, i as nat));
        }
    }
}

/// The calls of a component among the first `n`, with their tool runs.
pub open spec fn component_text(spans: Seq<Span>, component: Seq<char>, n: nat) -> Seq<char>
    decreases n,
{
    if n == 0 || n > spans.len() {
        Seq::empty()
    } else {
        let before = component_text(spans, component, (n - 1) as nat);
        let span = spans[n - 1];
        if span.component@ == component {
            before + "  "@ + call_text(span) + events_text(span.events@, span.events@.len())
        } else {
            before
        }
    }
}

fn push_component(out: &mut String, spans: &Vec<Span>, component: &str)
    ensures
        final(out)@ == old(out)@ + component_text(spans@, component@, spans@.len()),
{
    let mut i: usize = 0;
    proof {
        assert(out@ =~= old(out)@ + component_text(spans@, component@, 0));
    }
    while i < spans.len()
        invariant
            i <= spans@.len(),
            out@ == old(out)@ + component_text(spans@, component@, i as nat),
        decreases spans@.len() - i,
    {
        if text::text_eq(spans[i].component.as_str(), component) {
            out.append("  ");
            push_call(out, &spans[i]);
            push_events(out, &spans[i].events);
        }
        i += 1;
        proof {
            assert(out@ =~= old(out)@ + component_text(spans@, component@, i as nat));
        }
    }
}

/// `score=0.500; feedback`, with a line break.
pub open spec fn score_line(eval: Eval) -> Seq<char> {
    "score="@ + eval.score_text@ + "; "@ + text::or_text(eval.feedback, "-"@) + "\n"@
}

pub fn push_score_line(out: &mut String, eval: &Eval)
    ensures
        final(out)@ == old(out)@ + score_line(*eval),
{
    out.append("score=");
    out.append(eval.score_text.as_str());
    out.append("; ");
    match &eval.feedback {
        Some(f) => out.append(f.as_str()),
        None => out.append("-"),
    }
    out.append("\n");
    proof {
        assert(out@ =~= old(out)@ + score_line(*eval));
    }
}

/// The first `n` rollouts: number, score and feedback, then the calls of the component.
pub open spec fn rollouts_text(
    rollouts: Seq<RolloutOutcome>,
    component: Seq<char>,
    n: nat,
) -> Seq<char>
    decreases n,
{
    if n == 0 || n > rollouts.len() {
        Seq::empty()
    } else {
        let r = rollouts[n - 1];
        rollouts_text(rollouts, component, (n - 1) as nat) + text::decimal(n) + ": "@ + score_line(
            r.eval,
        ) + (match r.trace {
            Some(t) => component_text(t.spans@, component, t.spans@.len()),
            None => Seq::empty(),
        })
    }
}

/// What a reflecting model reads of an evaluation.
pub fn summarize_feedback(module_name: &str, eval: &CandidateEval) -> (r: String)
    ensures
        r@ == text::trim_end(
            rollouts_text(eval.rollouts@, module_name@, eval.rollouts@.len()),
        ),
{
    let mut out = String::new();
    let mut i: usize = 0;
    while i < eval.rollouts.len()
        invariant
            i <= eval.rollouts@.len(),
            out@ == rollouts_text(eval.rollouts@, module_name@, i as nat),
        decreases eval.rollouts@.len() - i,
    {
        let ghost before = out@;
        text::push_decimal(&mut out, (i + 1) as u64);
        out.append(": ");
        push_score_line(&mut out, &eval.rollouts[i].eval);
        match &eval.rollouts[i].trace {
            Some(trace) => push_component(&mut out, &trace.spans, module_name),
            None => {
                proof {
                    assert(out@ =~= out@ + Seq::<char>::empty());
                }
            },
        }
        i += 1;
        proof {
            assert(out@ =~= rollouts_text(eval.rollouts@, module_name@, i as nat));
        }
    }
    text::trim_end_str(out.as_str())
}

/// All of the first `n` calls, with the component of each.
pub open spec fn spans_text(spans: Seq<Span>, n: nat) -> Seq<char>
    decreases n,
{
    if n == 0 || n > spans.len() {
        Seq::empty()
    } else {
        let span = spans[n - 1];
        spans_text(spans, (n - 1) as nat) + "  "@ + span.component@ + " "@ + call_text(span)
    }
}

/// One rollout in words.
pub open spec fn rollout_summary(eval: Eval, trace: Option<std::sync::Arc<Trace>>) -> Seq<char> {
    text::trim_end(
        score_line(eval) + (match trace {
            Some(t) => spans_text(t.spans@, t.spans@.len()),
            None => Seq::empty(),
        }),
    )
}

pub fn summarize_rollout(eval: &Eval, trace: &Option<std::sync::Arc<Trace>>) -> (r: String)
    ensures
        r@ == rollout_summary(*eval, *trace),
{
    let mut out = String::new();
    push_score_line(&mut out, eval);
    proof {
        assert(out@ =~= score_line(*eval));
        assert(score_line(*eval) + Seq::<char>::empty() =~= score_line(*eval));
    }
    match trace {
        Some(t) => {
            let ghost line = out@;
            let mut i: usize = 0;
            proof {
                assert(out@ =~= line + spans_text(t.spans@, 0));
            }
            while i < t.spans.len()
                invariant
                    i <= t.spans@.len(),
                    out@ == line + spans_text(t.spans@, i as nat),
                decreases t.spans@.len() - i,
            {
                out.append("  ");
                out.append(t.spans[i].component.as_str());
                out.append(" ");
                push_call(&mut out, &t.spans[i]);
                i += 1;
                proof {
                    assert(out@ =~= line + spans_text(t.spans@, i as nat));
                }
            }
        },
        None => {},
    }
    text::trim_end_str(out.as_str())
}

/// The failed ones among the first `n` calls.
pub open spec fn errors_text(spans: Seq<Span>, n: nat) -> Seq<char>
    decreases n,
{
    if n == 0 || n > spans.len() {
        Seq::empty()
    } else {
        let before = errors_text(spans, (n - 1) as nat);
        let span = spans[n - 1];
        if span.error is Some {
            before + "  "@ + span.component@ + " call "@ + text::decimal(span.seq as nat) + ": "@
                + error_text(span) + "\n"@
        } else {
            before
        }
    }
}

pub fn push_errors(out: &mut String, spans: &Vec<Span>)
    ensures
        final(out)@ == old(out)@ + errors_text(spans@, spans@.len()),
{
    let mut i: usize = 0;
    proof {
        assert(out@ =~= old(out)@ + errors_text(spans@, 0));
    }
    while i < spans.len()
        invariant
            i <= spans@.len(),
            out@ == old(out)@ + errors_text(spans@, i as nat),
        decreases spans@.len() - i,
    {
        if spans[i].error.is_some() {
            out.append("  ");
            out.append(spans[i].component.as_str());
            out.append(" call ");
            text::push_decimal(out, spans[i].seq);
            out.append(": ");
            push_error(out, &spans[i]);
            out.append("\n");
        }
        i += 1;
        proof {
            assert(out@ =~= old(out)@ + errors_text(spans@, i as nat));
        }
    }
}

proof fn lemma_rollout_shown(
    rollouts: Seq<RolloutOutcome>,
    component: Seq<char>,
    n: nat,
    i: int,
)
    requires
        0 <= i < n <= rollouts.len(),
    ensures
        text::has_text(
            rollouts_text(rollouts, component, n),
            text::decimal((i + 1) as nat) + ": "@ + score_line(rollouts[i].eval),
        ),
        rollouts[i].trace matches Some(t) ==> text::has_text(
            rollouts_text(rollouts, component, n),
            component_text(t.spans@, component, t.spans@.len()),
        ),
    decreases n,
{
    let before = rollouts_text(rollouts, component, (n - 1) as nat);
    let last = rollouts[n - 1];
    let line = score_line(last.eval);
    let calls = match last.trace {
        Some(t) => component_text(t.spans@, component, t.spans@.len()),
        None => Seq::empty(),
    };
    let all = rollouts_text(rollouts, component, n);
    let shown = text::decimal(n) + ": "@ + line;
    text_laws::lemma_grouped(before, text::decimal(n), ": "@);
    text_laws::lemma_grouped(before, text::decimal(n) + ": "@, line);
    assert(all == before + shown + calls);
    if i + 1 == n {
        text_laws::lemma_inside(before, shown, calls);
        text_laws::lemma_ends(before + shown, calls);
    } else {
        lemma_rollout_shown(rollouts, component, (n - 1) as nat, i);
        text_laws::lemma_grouped(before, shown, calls);
        text_laws::lemma_ends(before, shown + calls);
        text_laws::lemma_within(
            all,
            before,
            text::decimal((i + 1) as nat) + ": "@ + score_line(rollouts[i].eval),
        );
        if let Some(t) = rollouts[i].trace {
            text_laws::lemma_within(
                all,
                before,
                component_text(t.spans@, component, t.spans@.len()),
            );
        }
    }
}

proof fn lemma_call_shown(spans: Seq<Span>, component: Seq<char>, n: nat, k: int)
    requires
        0 <= k < n <= spans.len(),
        spans[k].component@ == component,
    ensures
        text::has_text(component_text(spans, component, n), call_text(spans[k])),
        text::has_text(
            component_text(spans, component, n),
            events_text(spans[k].events@, spans[k].events@.len()),
        ),
    decreases n,
{
    let before = component_text(spans, component, (n - 1) as nat);
    let all = component_text(spans, component, n);
    let span = spans[n - 1];
    let call = call_text(span);
    let events = events_text(span.events@, span.events@.len());
    if k + 1 == n {
        text_laws::lemma_inside(before + "  "@, call, events);
        text_laws::lemma_ends(before + "  "@ + call, events);
    } else {
        lemma_call_shown(spans, component, (n - 1) as nat, k);
        if span.component@ == component {
            text_laws::lemma_grouped(before, "  "@, call);
            text_laws::lemma_grouped(before, "  "@ + call, events);
            text_laws::lemma_ends(before, "  "@ + call + events);
        } else {
            text_laws::lemma_ends(before, Seq::empty());
            assert(before + Seq::<char>::empty() =~= before);
        }
        text_laws::lemma_within(all, before, call_text(spans[k]));
        text_laws::lemma_within(
            all,
            before,
            events_text(spans[k].events@, spans[k].events@.len()),
        );
    }
}

proof fn lemma_event_shown(events: Seq<SpanEvent>, n: nat, k: int)
    requires
        0 <= k < n <= events.len(),
    ensures
        text::has_text(events_text(events, n), event_text(events[k])),
    decreases n,
{
    let before = events_text(events, (n - 1) as nat);
    text_laws::lemma_ends(before, event_text(events[n - 1]));
    if k + 1 < n {
        lemma_event_shown(events, (n - 1) as nat, k);
        text_laws::lemma_within(events_text(events, n), before, event_text(events[k]));
    }
}

proof fn lemma_call_holds(span: Span)
    ensures
        text::has_text(call_text(span), "input="@ + map_text(span.input)),
        text::has_text(call_text(span), "output="@ + output_text(span)),
{
    reveal_strlit(": input=");
    reveal_strlit("; output=");
    reveal_strlit("input=");
    reveal_strlit("output=");
    reveal_strlit(": ");
    reveal_strlit("; ");
    let number = "call "@ + text::decimal(span.seq as nat);
    let a = map_text(span.input);
    let b = output_text(span);
    assert(": input="@ =~= ": "@ + "input="@);
    assert("; output="@ =~= "; "@ + "output="@);
    let head = number + ": "@;
    text_laws::lemma_grouped(number, ": "@, "input="@);
    text_laws::lemma_grouped(head, "input="@, a);
    let mid = head + ("input="@ + a);
    let tail = "; output="@ + b + "\n"@;
    text_laws::lemma_grouped(mid, "; output="@, b);
    text_laws::lemma_grouped(mid, "; output="@ + b, "\n"@);
    assert(call_text(span) == mid + tail);
    text_laws::lemma_inside(head, "input="@ + a, tail);
    text_laws::lemma_grouped(mid, "; "@, "output="@);
    text_laws::lemma_grouped(mid + "; "@, "output="@, b);
    assert(call_text(span) == (mid + "; "@) + ("output="@ + b) + "\n"@);
    text_laws::lemma_inside(mid + "; "@, "output="@ + b, "\n"@);
}

/// A line of a score holds the score and the feedback.
pub proof fn lemma_score_line_holds(eval: Eval)
    ensures
        text::has_text(score_line(eval), eval.score_text@),
        eval.feedback matches Some(f) ==> text::has_text(score_line(eval), f@),
{
    let f = text::or_text(eval.feedback, "-"@);
    text_laws::lemma_inside("score="@ + eval.score_text@ + "; "@, f, "\n"@);
    let tail = "; "@ + f + "\n"@;
    text_laws::lemma_grouped("score="@ + eval.score_text@, "; "@, f);
    text_laws::lemma_grouped("score="@ + eval.score_text@, "; "@ + f, "\n"@);
    text_laws::lemma_inside("score="@, eval.score_text@, tail);
}

pub proof fn lemma_feedback_shown(rollouts: Seq<RolloutOutcome>, component: Seq<char>, i: int)
    requires
        0 <= i < rollouts.len(),
    ensures
        text::has_text(
            text::trim_end(rollouts_text(rollouts, component, rollouts.len())),
            text::trim_end(rollouts[i].eval.score_text@),
        ),
        rollouts[i].eval.feedback matches Some(f) ==> text::has_text(
            text::trim_end(rollouts_text(rollouts, component, rollouts.len())),
            text::trim_end(f@),
        ),
{
    let e = rollouts[i].eval;
    let all = rollouts_text(rollouts, component, rollouts.len());
    let shown = text::decimal((i + 1) as nat) + ": "@ + score_line(e);
    lemma_rollout_shown(rollouts, component, rollouts.len(), i);
    lemma_score_line_holds(e);
    text_laws::lemma_ends(text::decimal((i + 1) as nat) + ": "@, score_line(e));
    text_laws::lemma_within(all, shown, score_line(e));
    text_laws::lemma_within(all, score_line(e), e.score_text@);
    text_laws::lemma_trim_end_keeps_text(all, e.score_text@);
    if let Some(f) = e.feedback {
        text_laws::lemma_within(all, score_line(e), f@);
        text_laws::lemma_trim_end_keeps_text(all, f@);
    }
}

/// A reflecting model reads the number, the score and the feedback of every rollout, but for white
/// space at the end of the whole text.
pub proof fn feedback_on_every_rollout_is_shown(
    module_name: &str,
    eval: &CandidateEval,
    r: String,
    i: int,
)
    requires
        call_ensures(summarize_feedback, (module_name, eval), r),
        0 <= i < eval.rollouts@.len(),
    ensures
        text::has_text(r@, text::trim_end(eval.rollouts@[i].eval.score_text@)),
        eval.rollouts@[i].eval.feedback matches Some(f) ==> text::has_text(
            r@,
            text::trim_end(f@),
        ),
{
    lemma_feedback_shown(eval.rollouts@, module_name@, i);
}

/// It reads the inputs and outputs of every call of the module too, and of the tools that ran: the
/// name of each and the beginning of what it gave.
pub proof fn calls_of_the_module_are_shown(
    module_name: &str,
    eval: &CandidateEval,
    r: String,
    i: int,
    trace: std::sync::Arc<Trace>,
    k: int,
    e: int,
)
    requires
        call_ensures(summarize_feedback, (module_name, eval), r),
        0 <= i < eval.rollouts@.len(),
        eval.rollouts@[i].trace == Some(trace),
        0 <= k < trace.spans@.len(),
        trace.spans@[k].component@ == module_name@,
    ensures
        trace.spans@[k].input matches Some(m) ==> text::has_text(
            r@,
            text::trim_end(
                "input="@ + json::json_text(JsonView::Object(json::members_view(m@))),
            ),
        ),
        trace.spans@[k].output matches Some(m) ==> text::has_text(
            r@,
            text::trim_end(
                "output="@ + json::json_text(JsonView::Object(json::members_view(m@))),
            ),
        ),
        0 <= e < trace.spans@[k].events@.len() ==> (trace.spans@[k].events@[e] matches
            SpanEvent::ToolRun { name, result, .. } ==> text::has_text(
            r@,
            text::trim_end(
                "tool "@ + name@ + ": "@ + if result@.len() <= 200 {
                    result@
                } else {
                    result@.take(200)
                },
            ),
        )),
{
    let all = rollouts_text(eval.rollouts@, module_name@, eval.rollouts@.len());
    let calls = component_text(trace.spans@, module_name@, trace.spans@.len());
    let span = trace.spans@[k];
    let call = call_text(span);
    lemma_rollout_shown(eval.rollouts@, module_name@, eval.rollouts@.len(), i);
    lemma_call_shown(trace.spans@, module_name@, trace.spans@.len(), k);
    lemma_call_holds(span);
    text_laws::lemma_within(all, calls, call);
    text_laws::lemma_within(all, call, "input="@ + map_text(span.input));
    text_laws::lemma_within(all, call, "output="@ + output_text(span));
    text_laws::lemma_trim_end_keeps_text(all, "input="@ + map_text(span.input));
    text_laws::lemma_trim_end_keeps_text(all, "output="@ + output_text(span));
    if 0 <= e < span.events@.len() {
        let events = events_text(span.events@, span.events@.len());
        lemma_event_shown(span.events@, span.events@.len(), e);
        text_laws::lemma_within(all, calls, events);
        text_laws::lemma_within(all, events, event_text(span.events@[e]));
        if let SpanEvent::ToolRun { name, result, error } = span.events@[e] {
            lemma_tool_line(name@, result@, span.events@[e]);
            let shown = "tool "@ + name@ + ": "@ + if result@.len() <= 200 {
                result@
            } else {
                result@.take(200)
            };
            text_laws::lemma_within(all, event_text(span.events@[e]), shown);
            text_laws::lemma_trim_end_keeps_text(all, shown);
        }
    }
}

proof fn lemma_tool_line(name: Seq<char>, result: Seq<char>, event: SpanEvent)
    requires
        event matches SpanEvent::ToolRun { name: n, result: r, .. } && n@ == name && r@ == result,
    ensures
        text::has_text(
            event_text(event),
            "tool "@ + name + ": "@ + if result.len() <= 200 {
                result
            } else {
                result.take(200)
            },
        ),
{
    reveal_strlit("    tool ");
    reveal_strlit("    ");
    reveal_strlit("tool ");
    assert("    tool "@ =~= "    "@ + "tool "@);
    let cut = text::truncated(result, 200);
    let error = match event->error {
        Some(e) => " (error: "@ + e@ + ")"@,
        None => Seq::empty(),
    };
    let part = "tool "@ + name + ": "@;
    text_laws::lemma_grouped("    "@, "tool "@, name);
    text_laws::lemma_grouped("    "@, "tool "@ + name, ": "@);
    text_laws::lemma_grouped("    "@, part, cut);
    let line = part + cut;
    text_laws::lemma_grouped("    "@ + line, error, "\n"@);
    assert(event_text(event) == "    "@ + line + (error + "\n"@));
    text_laws::lemma_inside("    "@, line, error + "\n"@);
    if result.len() > 200 {
        text_laws::lemma_grouped(part, result.take(200), "..."@);
        text_laws::lemma_ends(part + result.take(200), "..."@);
        text_laws::lemma_within(event_text(event), line, part + result.take(200));
    }
}

proof fn lemma_span_shown(spans: Seq<Span>, n: nat, k: int)
    requires
        0 <= k < n <= spans.len(),
    ensures
        text::has_text(spans_text(spans, n), spans[k].component@ + " "@ + call_text(spans[k])),
    decreases n,
{
    let before = spans_text(spans, (n - 1) as nat);
    let span = spans[n - 1];
    let line = span.component@ + " "@ + call_text(span);
    let all = spans_text(spans, n);
    text_laws::lemma_grouped(before + "  "@, span.component@, " "@);
    text_laws::lemma_grouped(before + "  "@, span.component@ + " "@, call_text(span));
    assert(all == before + "  "@ + line);
    text_laws::lemma_ends(before + "  "@, line);
    if k + 1 < n {
        lemma_span_shown(spans, (n - 1) as nat, k);
        text_laws::lemma_grouped(before, "  "@, line);
        text_laws::lemma_ends(before, "  "@ + line);
        text_laws::lemma_within(
            all,
            before,
            spans[k].component@ + " "@ + call_text(spans[k]),
        );
    }
}

/// One rollout in words holds its score, its feedback, and every call with its component, its input
/// and its output.
pub proof fn rollouts_are_put_into_words_whole(
    eval: &Eval,
    trace: std::sync::Arc<Trace>,
    held: Option<std::sync::Arc<Trace>>,
    r: String,
    k: int,
)
    requires
        call_ensures(summarize_rollout, (eval, &held), r),
        held == Some(trace),
    ensures
        text::has_text(r@, text::trim_end(eval.score_text@)),
        eval.feedback matches Some(f) ==> text::has_text(r@, text::trim_end(f@)),
        0 <= k < trace.spans@.len() ==> {
            &&& text::has_text(r@, text::trim_end(trace.spans@[k].component@))
            &&& trace.spans@[k].input matches Some(m) ==> text::has_text(
                r@,
                text::trim_end(
                    "input="@ + json::json_text(JsonView::Object(json::members_view(m@))),
                ),
            )
            &&& trace.spans@[k].output matches Some(m) ==> text::has_text(
                r@,
                text::trim_end(
                    "output="@ + json::json_text(JsonView::Object(json::members_view(m@))),
                ),
            )
        },
{
    let line = score_line(*eval);
    let calls = spans_text(trace.spans@, trace.spans@.len());
    let all = line + calls;
    text_laws::lemma_ends(line, calls);
    lemma_score_line_holds(*eval);
    text_laws::lemma_within(all, line, eval.score_text@);
    text_laws::lemma_trim_end_keeps_text(all, eval.score_text@);
    if let Some(f) = eval.feedback {
        text_laws::lemma_within(all, line, f@);
        text_laws::lemma_trim_end_keeps_text(all, f@);
    }
    if 0 <= k < trace.spans@.len() {
        let span = trace.spans@[k];
        let shown = span.component@ + " "@ + call_text(span);
        lemma_span_shown(trace.spans@, trace.spans@.len(), k);
        lemma_call_holds(span);
        text_laws::lemma_within(all, calls, shown);
        text_laws::lemma_grouped(span.component@, " "@, call_text(span));
        text_laws::lemma_ends(span.component@, " "@ + call_text(span));
        text_laws::lemma_ends(span.component@ + " "@, call_text(span));
        text_laws::lemma_within(all, shown, span.component@);
        text_laws::lemma_within(all, shown, call_text(span));
        text_laws::lemma_within(all, call_text(span), "input="@ + map_text(span.input));
        text_laws::lemma_within(all, call_text(span), "output="@ + output_text(span));
        text_laws::lemma_trim_end_keeps_text(all, span.component@);
        text_laws::lemma_trim_end_keeps_text(all, "input="@ + map_text(span.input));
        text_laws::lemma_trim_end_keeps_text(all, "output="@ + output_text(span));
    }
}

} // verus!
