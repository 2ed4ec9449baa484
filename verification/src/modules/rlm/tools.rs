//! The queries that code may make of a second model, and their budget.

use vstd::prelude::*;

use crate::text;
use crate::text_laws;

verus! {

/// Why a query is refused or fails.
#[derive(Debug)]
pub enum ToolFailure {
    Value { message: String },
    Runtime { message: String },
}

/// The budget of queries. All queries of a run draw on it.
#[derive(Clone, Copy, Debug, PartialEq, Eq, Structural)]
pub struct LlmTools {
    pub max_llm_calls: usize,
    pub budget_remaining: usize,
}

/// What is to be done with a batch of queries: the first ones are made, and what is printed.
#[derive(Debug)]
pub struct BatchAdmission {
    pub executable: usize,
    pub warning: Option<String>,
}

/// Why a query that the budget does not admit is refused.
pub open spec fn exhausted_text(count: nat, remaining: nat, max: nat) -> Seq<char> {
    "[Error] RuntimeError: LLM call budget exhausted: requested "@ + text::decimal(count)
        + ", remaining "@ + text::decimal(remaining) + ", max "@ + text::decimal(max)
        + ". This is retryable after reducing llm_query usage."@
}

/// What is said when a batch is cut short.
pub open spec fn warning_text(executed: nat, requested: nat, remaining: nat, max: nat) -> Seq<
    char,
> {
    "\u{26a0} Budget: executed first "@ + text::decimal(executed) + " of "@ + text::decimal(
        requested,
    ) + " requested queries ("@ + text::decimal(remaining) + " remaining of "@ + text::decimal(max)
        + " max). results[i] aligns to prompts[i] for i < "@ + text::decimal(executed)
        + "; skipped prompts["@ + text::decimal(executed) + ".."@ + text::decimal(requested)
        + "]."@
}

/// A failure inside of a query.
pub fn runtime_error(error: &str) -> (r: ToolFailure)
    ensures
        r matches ToolFailure::Runtime { message } && message@ == "[Error] RuntimeError: "@ + error@,
{
    let mut message = "[Error] RuntimeError: ".to_owned();
    message.append(error);
    ToolFailure::Runtime { message }
}

/// The asynchronous runtime that a query finds where it is made.
#[derive(Debug)]
pub enum QueryRuntime {
    Missing { error: String },
    CurrentThread,
    MultiThread,
}

/// A query blocks its thread, so it needs a runtime with several threads.
pub fn ensure_runtime(runtime: &QueryRuntime) -> (r: Result<(), ToolFailure>)
    ensures
        match runtime {
            QueryRuntime::Missing { error } => r matches Err(ToolFailure::Runtime { message })
                && message@ == "[Error] RuntimeError: "@ + (
            "an active Tokio runtime is required: "@ + error@),
            QueryRuntime::CurrentThread => r matches Err(ToolFailure::Runtime { message })
                && message@ == "[Error] RuntimeError: "@
                + "llm_query requires a multi-thread Tokio runtime; current-thread runtime is not supported"@,
            QueryRuntime::MultiThread => r is Ok,
        },
{
    match runtime {
        QueryRuntime::Missing { error } => {
            let mut reason = "an active Tokio runtime is required: ".to_owned();
            reason.append(error.as_str());
            Err(runtime_error(reason.as_str()))
        },
        QueryRuntime::CurrentThread => Err(
            runtime_error(
                "llm_query requires a multi-thread Tokio runtime; current-thread runtime is not supported",
            ),
        ),
        QueryRuntime::MultiThread => Ok(()),
    }
}

/// A query has to say something.
pub fn ensure_prompt(prompt: &str) -> (r: Result<(), ToolFailure>)
    ensures
        r is Ok <==> !text::is_blank(prompt@),
        r matches Err(e) ==> (e matches ToolFailure::Value { message } && message@
            == "[Error] ValueError: prompt cannot be empty"@),
{
    if text::blank(prompt) {
        return Err(
            ToolFailure::Value {
                message: "[Error] ValueError: prompt cannot be empty".to_owned(),
            },
        );
    }
    Ok(())
}

/// A query of the list is blank.
pub open spec fn any_blank(prompts: Seq<String>) -> bool {
    exists|i: int| 0 <= i < prompts.len() && text::is_blank((#[trigger] prompts[i])@)
}

/// How many of so many queries a budget admits.
pub open spec fn admitted(remaining: usize, requested: usize) -> usize {
    if remaining < requested {
        remaining
    } else {
        requested
    }
}

impl LlmTools {
    pub fn new(budget_remaining: usize, max_llm_calls: usize) -> (r: Self)
        ensures
            r == (LlmTools { max_llm_calls, budget_remaining }),
    {
        LlmTools { max_llm_calls, budget_remaining }
    }

    /// A budget of which nothing is used.
    pub fn with_budget(max_llm_calls: usize) -> (r: Self)
        ensures
            r == (LlmTools { max_llm_calls, budget_remaining: max_llm_calls }),
    {
        LlmTools::new(max_llm_calls, max_llm_calls)
    }

    /// How many queries were made.
    pub fn call_count(&self) -> (r: usize)
        ensures
            r == (if self.max_llm_calls >= self.budget_remaining {
                self.max_llm_calls - self.budget_remaining
            } else {
                0
            }),
    {
        if self.max_llm_calls >= self.budget_remaining {
            self.max_llm_calls - self.budget_remaining
        } else {
            0
        }
    }

    pub fn remaining_calls(&self) -> (r: usize)
        ensures
            r == self.budget_remaining,
    {
        self.budget_remaining
    }

    /// Takes so many queries out of the budget, or none of them.
    pub fn reserve_calls(&mut self, count: usize) -> (r: Result<(), ToolFailure>)
        ensures
            if old(self).budget_remaining < count {
                &&& *final(self) == *old(self)
                &&& r matches Err(ToolFailure::Runtime { message }) && message@ == exhausted_text(
                    count as nat,
                    old(self).budget_remaining as nat,
                    old(self).max_llm_calls as nat,
                )
            } else {
                &&& r is Ok
                &&& *final(self) == (LlmTools {
                    budget_remaining: (old(self).budget_remaining - count) as usize,
                    ..*old(self)
                })
            },
    {
        if self.budget_remaining < count {
            let mut message =
                "[Error] RuntimeError: LLM call budget exhausted: requested ".to_owned();
            text::push_decimal(&mut message, count as u64);
            message.append(", remaining ");
            text::push_decimal(&mut message, self.budget_remaining as u64);
            message.append(", max ");
            text::push_decimal(&mut message, self.max_llm_calls as u64);
            message.append(". This is retryable after reducing llm_query usage.");
            return Err(ToolFailure::Runtime { message });
        }
        self.budget_remaining = self.budget_remaining - count;
        Ok(())
    }

    /// Takes as many of the queries out of the budget as it has.
    pub fn reserve_calls_for_batch(&mut self, requested: usize) -> (r: usize)
        ensures
            r == admitted(old(self).budget_remaining, requested),
            *final(self) == (LlmTools {
                budget_remaining: (old(self).budget_remaining - r) as usize,
                ..*old(self)
            }),
    {
        let to_execute: usize = if self.budget_remaining < requested {
            self.budget_remaining
        } else {
            requested
        };
        self.budget_remaining = self.budget_remaining - to_execute;
        to_execute
    }

    /// What is printed when not all of a batch is made.
    pub fn budget_warning(&self, executed: usize, requested: usize) -> (r: Option<String>)
        ensures
            executed >= requested ==> r is None,
            executed < requested ==> r is Some && r->0@ == warning_text(
                executed as nat,
                requested as nat,
                self.budget_remaining as nat,
                self.max_llm_calls as nat,
            ),
    {
        if executed >= requested {
            return None;
        }
        let mut out = "\u{26a0} Budget: executed first ".to_owned();
        text::push_decimal(&mut out, executed as u64);
        out.append(" of ");
        text::push_decimal(&mut out, requested as u64);
        out.append(" requested queries (");
        text::push_decimal(&mut out, self.budget_remaining as u64);
        out.append(" remaining of ");
        text::push_decimal(&mut out, self.max_llm_calls as u64);
        out.append(" max). results[i] aligns to prompts[i] for i < ");
        text::push_decimal(&mut out, executed as u64);
        out.append("; skipped prompts[");
        text::push_decimal(&mut out, executed as u64);
        out.append("..");
        text::push_decimal(&mut out, requested as u64);
        out.append("].");
        Some(out)
    }

    /// Admits a query: it is made when the result is `Ok`.
    pub fn llm_query(&mut self, prompt: &str) -> (r: Result<(), ToolFailure>)
        ensures
            if text::is_blank(prompt@) {
                &&& *final(self) == *old(self)
                &&& r matches Err(ToolFailure::Value { message }) && message@
                    == "[Error] ValueError: prompt cannot be empty"@
            } else if old(self).budget_remaining == 0 {
                &&& *final(self) == *old(self)
                &&& r matches Err(ToolFailure::Runtime { message }) && message@ == exhausted_text(
                    1,
                    0,
                    old(self).max_llm_calls as nat,
                )
            } else {
                &&& r is Ok
                &&& *final(self) == (LlmTools {
                    budget_remaining: (old(self).budget_remaining - 1) as usize,
                    ..*old(self)
                })
            },
    {
        match ensure_prompt(prompt) {
            Ok(_) => {},
            Err(e) => {
                return Err(e);
            },
        }
        self.reserve_calls(1)
    }

    /// Admits a batch of queries: the first `executable` are made. A batch with a blank query
    /// is refused as a whole.
    pub fn llm_query_batched(&mut self, prompts: &Vec<String>) -> (r: Result<
        BatchAdmission,
        ToolFailure,
    >)
        ensures
            if any_blank(prompts@) {
                &&& *final(self) == *old(self)
                &&& r matches Err(ToolFailure::Value { message }) && message@
                    == "[Error] ValueError: prompt cannot be empty"@
            } else {
                let n = admitted(old(self).budget_remaining, prompts@.len() as usize);
                &&& *final(self) == (LlmTools {
                    budget_remaining: (old(self).budget_remaining - n) as usize,
                    ..*old(self)
                })
                &&& r matches Ok(a) && a.executable == n && if n < prompts@.len() {
                    a.warning is Some && a.warning->0@ == warning_text(
                        n as nat,
                        prompts@.len(),
                        final(self).budget_remaining as nat,
                        final(self).max_llm_calls as nat,
                    )
                } else {
                    a.warning is None
                }
            },
    {
        let mut i: usize = 0;
        while i < prompts.len()
            invariant
                i <= prompts@.len(),
                forall|k: int| 0 <= k < i ==> !text::is_blank((#[trigger] prompts@[k])@),
                *self == *old(self),
            decreases prompts@.len() - i,
        {
            match ensure_prompt(prompts[i].as_str()) {
                Ok(_) => {},
                Err(e) => {
                    proof {
                        assert(text::is_blank(prompts@[i as int]@));
                    }
                    return Err(e);
                },
            }
            i += 1;
        }
        let requested = prompts.len();
        let executable = self.reserve_calls_for_batch(requested);
        let warning = self.budget_warning(executable, requested);
        Ok(BatchAdmission { executable, warning })
    }
}

/// The first failure among the first `n` replies.
pub open spec fn first_failure(replies: Seq<Result<String, String>>, n: nat) -> Option<Seq<char>>
    decreases n,
{
    if n == 0 || n > replies.len() {
        None
    } else {
        match first_failure(replies, (n - 1) as nat) {
            Some(e) => Some(e),
            None => match replies[n - 1] {
                Ok(_) => None,
                Err(e) => Some(e@),
            },
        }
    }
}

/// The result of a batch: the replies in order, or the first failure.
pub fn batch_result(replies: Vec<Result<String, String>>) -> (r: Result<Vec<String>, ToolFailure>)
    ensures
        match first_failure(replies@, replies@.len()) {
            Some(e) => r matches Err(ToolFailure::Runtime { message }) && message@
                == "[Error] RuntimeError: "@ + e,
            None => r matches Ok(texts) && texts@.len() == replies@.len() && forall|i: int|
                0 <= i < replies@.len() ==> Ok::<String, String>(#[trigger] texts@[i])
                    == replies@[i],
        },
{
    let mut out: Vec<String> = Vec::new();
    let mut i: usize = 0;
    while i < replies.len()
        invariant
            i <= replies@.len(),
            first_failure(replies@, i as nat) is None,
            out@.len() == i,
            forall|k: int| 0 <= k < i ==> Ok::<String, String>(#[trigger] out@[k]) == replies@[k],
        decreases replies@.len() - i,
    {
        match &replies[i] {
            Ok(t) => out.push(t.clone()),
            Err(e) => {
                proof {
                    lemma_first_failure(replies@, i as nat);
                }
                return Err(runtime_error(e.as_str()));
            },
        }
        i += 1;
    }
    Ok(out)
}

proof fn lemma_first_failure(replies: Seq<Result<String, String>>, i: nat)
    requires
        i < replies.len(),
        first_failure(replies, i) is None,
        replies[i as int] is Err,
    ensures
        first_failure(replies, replies.len()) == Some(replies[i as int]->Err_0@),
{
    lemma_failure_stays(replies, i + 1, replies.len());
}

proof fn lemma_failure_stays(replies: Seq<Result<String, String>>, a: nat, b: nat)
    requires
        a <= b <= replies.len(),
        first_failure(replies, a) is Some,
    ensures
        first_failure(replies, b) == first_failure(replies, a),
    decreases b,
{
    if a < b {
        lemma_failure_stays(replies, a, (b - 1) as nat);
    }
}

/// Single queries and batches draw on one budget: however they follow each other, no more
/// queries are made than the budget had, and what is made is what the budget lost.
pub proof fn one_budget_for_all_queries(start: LlmTools, requests: Seq<usize>, n: nat)
    requires
        n <= requests.len(),
    ensures
        executed(start.budget_remaining, requests, n) + left_after(
            start.budget_remaining,
            requests,
            n,
        ) == start.budget_remaining,
    decreases n,
{
    if n > 0 {
        one_budget_for_all_queries(start, requests, (n - 1) as nat);
    }
}

/// What is left of a budget after the first `n` batches.
pub open spec fn left_after(budget: usize, requests: Seq<usize>, n: nat) -> usize
    decreases n,
{
    if n == 0 || n > requests.len() {
        budget
    } else {
        let before = left_after(budget, requests, (n - 1) as nat);
        (before - admitted(before, requests[n - 1])) as usize
    }
}

/// How many queries the first `n` batches make.
pub open spec fn executed(budget: usize, requests: Seq<usize>, n: nat) -> nat
    decreases n,
{
    if n == 0 || n > requests.len() {
        0
    } else {
        executed(budget, requests, (n - 1) as nat) + admitted(
            left_after(budget, requests, (n - 1) as nat),
            requests[n - 1],
        ) as nat
    }
}

/// Queries of one call are paid from the budget one by one: as many as are made, and never more
/// than there are. All are made where the budget admits all, and nothing is then said of it.
pub proof fn batches_are_paid_by_query(
    tools: &mut LlmTools,
    prompts: &Vec<String>,
    r: Result<BatchAdmission, ToolFailure>,
)
    requires
        call_ensures(LlmTools::llm_query_batched, (tools, prompts), r),
    ensures
        r is Err <==> exists|i: int|
            0 <= i < prompts@.len() && text::is_blank((#[trigger] prompts@[i])@),
        r is Err ==> final(tools).budget_remaining == old(tools).budget_remaining,
        r is Ok ==> r->Ok_0.executable <= prompts@.len() && final(tools).budget_remaining
            + r->Ok_0.executable == old(tools).budget_remaining,
        r is Ok && prompts@.len() <= old(tools).budget_remaining ==> r->Ok_0.executable
            == prompts@.len() && r->Ok_0.warning is None,
        r is Ok && prompts@.len() > old(tools).budget_remaining ==> r->Ok_0.executable
            == old(tools).budget_remaining && r->Ok_0.warning is Some,
        final(tools).max_llm_calls == old(tools).max_llm_calls,
{
    assert(prompts@.len() == prompts.len());
}

/// A query is made exactly where it says something and one is left, and costs one.
pub proof fn queries_cost_one(tools: &mut LlmTools, prompt: &str, r: Result<(), ToolFailure>)
    requires
        call_ensures(LlmTools::llm_query, (tools, prompt), r),
    ensures
        r is Ok <==> !text::is_blank(prompt@) && old(tools).budget_remaining > 0,
        r is Ok ==> final(tools).budget_remaining + 1 == old(tools).budget_remaining,
        r is Err ==> *final(tools) == *old(tools),
{
}

/// The replies to a batch stand in the order of its queries; one that failed fails the batch.
pub proof fn replies_stand_in_the_order_of_queries(
    replies: Vec<Result<String, String>>,
    r: Result<Vec<String>, ToolFailure>,
    i: int,
)
    requires
        call_ensures(batch_result, (replies,), r),
    ensures
        r is Ok <==> forall|k: int| 0 <= k < replies@.len() ==> (#[trigger] replies@[k]) is Ok,
        r is Ok ==> r->Ok_0@.len() == replies@.len(),
        r is Ok && 0 <= i < replies@.len() ==> replies@[i] == Ok::<String, String>(r->Ok_0@[i]),
{
    lemma_no_failure(replies@, replies@.len());
    if r is Ok && 0 <= i < replies@.len() {
        assert(Ok::<String, String>(r->Ok_0@[i]) == replies@[i]);
    }
}

proof fn lemma_no_failure(replies: Seq<Result<String, String>>, n: nat)
    requires
        n <= replies.len(),
    ensures
        first_failure(replies, n) is None <==> forall|k: int|
            0 <= k < n ==> (#[trigger] replies[k]) is Ok,
    decreases n,
{
    if n > 0 {
        lemma_no_failure(replies, (n - 1) as nat);
    }
}

/// A batch that was cut short says so: how many of its queries ran, of how many, and how many are
/// left. One that ran whole says nothing.
pub proof fn cut_batches_are_told(
    tools: &LlmTools,
    executed: usize,
    requested: usize,
    r: Option<String>,
)
    requires
        call_ensures(LlmTools::budget_warning, (tools, executed, requested), r),
    ensures
        r is Some <==> executed < requested,
        r matches Some(s) ==> text::has_text(
            s@,
            text::decimal(executed as nat) + " of "@ + text::decimal(requested as nat),
        ) && text::has_text(s@, text::decimal(tools.budget_remaining as nat)),
{
    if executed < requested {
        let head = "\u{26a0} Budget: executed first "@;
        let a = text::decimal(executed as nat);
        let b = text::decimal(requested as nat);
        let c = text::decimal(tools.budget_remaining as nat);
        let d = text::decimal(tools.max_llm_calls as nat);
        let s1 = head + a + " of "@ + b;
        let s2 = s1 + " requested queries ("@ + c;
        let s3 = s2 + " remaining of "@ + d;
        let s4 = s3 + " max). results[i] aligns to prompts[i] for i < "@ + a;
        let s5 = s4 + "; skipped prompts["@ + a;
        let s6 = s5 + ".."@ + b;
        text_laws::lemma_grouped(head, a, " of "@);
        text_laws::lemma_grouped(head, a + " of "@, b);
        text_laws::lemma_ends(head, a + " of "@ + b);
        text_laws::lemma_ends(s1 + " requested queries ("@, c);
        lemma_more(s1, " requested queries ("@, c, a + " of "@ + b);
        lemma_more(s2, " remaining of "@, d, a + " of "@ + b);
        lemma_more(s2, " remaining of "@, d, c);
        lemma_more(s3, " max). results[i] aligns to prompts[i] for i < "@, a, a + " of "@ + b);
        lemma_more(s3, " max). results[i] aligns to prompts[i] for i < "@, a, c);
        lemma_more(s4, "; skipped prompts["@, a, a + " of "@ + b);
        lemma_more(s4, "; skipped prompts["@, a, c);
        lemma_more(s5, ".."@, b, a + " of "@ + b);
        lemma_more(s5, ".."@, b, c);
        text_laws::lemma_inside(Seq::empty(), s6, "]."@);
        assert(Seq::<char>::empty() + s6 =~= s6);
        text_laws::lemma_within(s6 + "]."@, s6, a + " of "@ + b);
        text_laws::lemma_within(s6 + "]."@, s6, c);
    }
}

proof fn lemma_more(s: Seq<char>, a: Seq<char>, b: Seq<char>, p: Seq<char>)
    requires
        text::has_text(s, p),
    ensures
        text::has_text(s + a + b, p),
{
    let i = choose|i: int| text::occurs_at(s, p, i);
    assert((s + a + b).subrange(i, i + p.len()) =~= s.subrange(i, i + p.len()));
    assert(text::occurs_at(s + a + b, p, i));
}

} // verus!
