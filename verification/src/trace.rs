//! What a rollout leaves behind: the calls it made, and what the metric said of it.

use std::sync::Arc;
use vstd::prelude::*;

use crate::json::JsonMap;

verus! {

/// `Arc::clone` gives a second handle to the same value.
#[verifier::external_body]
pub(crate) fn share<T>(value: &Arc<T>) -> (r: Arc<T>)
    ensures
        r == *value,
{
    Arc::clone(value)
}

/// The key of the score one: that of a score that is not negative is its bit pattern as a
/// floating-point number of 64 bits.
pub const FULL_SCORE: i64 = 0x3ff0_0000_0000_0000;

/// A score by its place among all scores. `key` orders scores, and `reach` is the key of the
/// score raised by the tolerance within which two scores tie.
#[derive(Clone, Copy, Debug, PartialEq, Eq, Structural)]
pub struct Score {
    pub key: i64,
    pub reach: i64,
}

impl Score {
    /// Raising a score never lowers it.
    pub open spec fn wf(&self) -> bool {
        self.key <= self.reach
    }
}

/// What a metric says of one rollout. `score_text` is the score with three decimals.
#[derive(Debug)]
pub struct Eval {
    pub score: Score,
    pub score_text: String,
    pub feedback: Option<String>,
}

impl Clone for Eval {
    fn clone(&self) -> (r: Self)
        ensures
            r == *self,
    {
        let feedback = match &self.feedback {
            Some(text) => Some(text.clone()),
            None => None,
        };
        Eval { score: self.score, score_text: self.score_text.clone(), feedback }
    }
}

/// Token counts of model calls.
#[derive(Clone, Copy, Debug, PartialEq, Eq, Structural)]
pub struct LmUsage {
    pub prompt_tokens: u64,
    pub completion_tokens: u64,
    pub total_tokens: u64,
}

impl LmUsage {
    pub open spec fn zero() -> LmUsage {
        LmUsage { prompt_tokens: 0, completion_tokens: 0, total_tokens: 0 }
    }

    /// The counts together; a count that would not fit stays at the largest one.
    pub open spec fn sum(&self, other: LmUsage) -> LmUsage {
        LmUsage {
            prompt_tokens: capped(self.prompt_tokens + other.prompt_tokens),
            completion_tokens: capped(self.completion_tokens + other.completion_tokens),
            total_tokens: capped(self.total_tokens + other.total_tokens),
        }
    }

    pub fn plus(&self, other: LmUsage) -> (r: LmUsage)
        ensures
            r == self.sum(other),
    {
        LmUsage {
            prompt_tokens: self.prompt_tokens.saturating_add(other.prompt_tokens),
            completion_tokens: self.completion_tokens.saturating_add(other.completion_tokens),
            total_tokens: self.total_tokens.saturating_add(other.total_tokens),
        }
    }
}

/// The count, or the largest one that fits.
pub open spec fn capped(n: int) -> u64 {
    if n > u64::MAX {
        u64::MAX
    } else {
        n as u64
    }
}

impl Default for LmUsage {
    fn default() -> (r: Self)
        ensures
            r == LmUsage::zero(),
    {
        LmUsage { prompt_tokens: 0, completion_tokens: 0, total_tokens: 0 }
    }
}

/// How a call failed.
#[derive(Debug)]
pub struct SpanError {
    pub kind: String,
    pub message: String,
}

/// What happened during a call.
#[derive(Debug)]
pub enum SpanEvent {
    ToolRun { name: String, result: String, error: Option<String> },
    Other,
}

/// One call of a component.
#[derive(Debug)]
pub struct Span {
    pub component: String,
    pub seq: u64,
    pub usage: LmUsage,
    pub input: Option<JsonMap>,
    pub output: Option<JsonMap>,
    pub error: Option<SpanError>,
    pub raw_output: Option<String>,
    pub events: Vec<SpanEvent>,
    pub eval: Option<Eval>,
    pub complete: bool,
}

/// The calls of one rollout, in the order in which they were made.
#[derive(Debug)]
pub struct Trace {
    pub spans: Vec<Span>,
    pub outcome: Option<Eval>,
}

/// Token counts with those of the first `n` calls added.
pub open spec fn usage_after(start: LmUsage, spans: Seq<Span>, n: nat) -> LmUsage
    decreases n,
{
    if n == 0 || n > spans.len() {
        start
    } else {
        usage_after(start, spans, (n - 1) as nat).sum(spans[n - 1].usage)
    }
}

impl Trace {
    /// Adds the token counts of the calls.
    pub fn add_usage(&self, start: LmUsage) -> (r: LmUsage)
        ensures
            r == usage_after(start, self.spans@, self.spans@.len()),
    {
        let mut total = start;
        let mut i: usize = 0;
        while i < self.spans.len()
            invariant
                i <= self.spans@.len(),
                total == usage_after(start, self.spans@, i as nat),
            decreases self.spans@.len() - i,
        {
            total = total.plus(self.spans[i].usage);
            i += 1;
        }
        total
    }
}

proof fn lemma_usage_grows(start: LmUsage, spans: Seq<Span>, n: nat, k: nat)
    requires
        k <= n <= spans.len(),
    ensures
        usage_after(start, spans, k).prompt_tokens <= usage_after(start, spans, n).prompt_tokens,
        usage_after(start, spans, k).completion_tokens <= usage_after(
            start,
            spans,
            n,
        ).completion_tokens,
        usage_after(start, spans, k).total_tokens <= usage_after(start, spans, n).total_tokens,
    decreases n,
{
    if k < n {
        lemma_usage_grows(start, spans, (n - 1) as nat, k);
    }
}

/// What a trace has used is at least what each of its calls used and what was used before it, and
/// with a single call it is their sum.
pub proof fn every_call_is_counted(t: &Trace, start: LmUsage, r: LmUsage, i: int)
    requires
        call_ensures(Trace::add_usage, (t, start), r),
    ensures
        r.total_tokens >= start.total_tokens,
        0 <= i < t.spans@.len() ==> r.prompt_tokens >= t.spans@[i].usage.prompt_tokens
            && r.completion_tokens >= t.spans@[i].usage.completion_tokens && r.total_tokens
            >= t.spans@[i].usage.total_tokens,
        t.spans@.len() == 0 ==> r == start,
        t.spans@.len() == 1 && start.prompt_tokens + t.spans@[0].usage.prompt_tokens <= u64::MAX
            ==> r.prompt_tokens == start.prompt_tokens + t.spans@[0].usage.prompt_tokens,
        t.spans@.len() == 1 && start.completion_tokens + t.spans@[0].usage.completion_tokens
            <= u64::MAX ==> r.completion_tokens == start.completion_tokens
            + t.spans@[0].usage.completion_tokens,
        t.spans@.len() == 1 && start.total_tokens + t.spans@[0].usage.total_tokens <= u64::MAX
            ==> r.total_tokens == start.total_tokens + t.spans@[0].usage.total_tokens,
{
    let spans = t.spans@;
    lemma_usage_grows(start, spans, spans.len(), 0);
    if 0 <= i < spans.len() {
        lemma_usage_grows(start, spans, spans.len(), (i + 1) as nat);
    }
    if spans.len() == 1 {
        assert(usage_after(start, spans, 0) == start);
        assert(usage_after(start, spans, 1) == start.sum(spans[0].usage));
    }
}

} // verus!
