//! Reasoning before an answer.

use vstd::prelude::*;

use crate::text;

verus! {

/// The output that a model writes before all others.
#[derive(Debug)]
pub struct Reasoning {
    pub reasoning: String,
}

/// An output with the reasoning that led to it.
#[derive(Debug)]
pub struct WithReasoning<O> {
    pub reasoning: String,
    pub inner: O,
}

impl<O> WithReasoning<O> {
    /// The reasoning and the output behind it.
    pub fn into_parts(self) -> (r: (Reasoning, O))
        ensures
            r.0.reasoning == self.reasoning,
            r.1 == self.inner,
    {
        (Reasoning { reasoning: self.reasoning }, self.inner)
    }
}

impl Reasoning {
    /// Puts the reasoning before an output.
    pub fn with<O>(self, inner: O) -> (r: WithReasoning<O>)
        ensures
            r.reasoning == self.reasoning,
            r.inner == inner,
    {
        WithReasoning { reasoning: self.reasoning, inner }
    }

    /// The names of outputs with that of the reasoning first.
    pub fn prepended(outputs: Vec<String>) -> (r: Vec<String>)
        ensures
            text::views(r@) == seq!["reasoning"@] + text::views(outputs@),
    {
        let mut names: Vec<String> = Vec::new();
        text::push_line(&mut names, "reasoning".to_owned());
        text::push_lines(&mut names, outputs);
        proof {
            assert(text::views(names@) =~= seq!["reasoning"@] + text::views(outputs@));
        }
        names
    }
}

/// The reasoning comes before all outputs, which keep their order.
pub proof fn reasoning_comes_first(outputs: Vec<String>, r: Vec<String>, i: int)
    requires
        call_ensures(Reasoning::prepended, (outputs,), r),
    ensures
        r@.len() == outputs@.len() + 1,
        r@[0]@ == "reasoning"@,
        0 <= i < outputs@.len() ==> r@[i + 1]@ == outputs@[i]@,
{
    let all = text::views(r@);
    assert(all.len() == r@.len());
    assert(text::views(outputs@).len() == outputs@.len());
    assert(all[0] == r@[0]@);
    if 0 <= i < outputs@.len() {
        assert(all[i + 1] == r@[i + 1]@);
        assert(text::views(outputs@)[i] == outputs@[i]@);
    }
}

/// What is put together with its reasoning comes apart again.
pub proof fn reasoning_and_output_come_apart<O>(
    reasoning: Reasoning,
    inner: O,
    both: WithReasoning<O>,
    r: (Reasoning, O),
)
    requires
        call_ensures(Reasoning::with::<O>, (reasoning, inner), both),
        call_ensures(WithReasoning::<O>::into_parts, (both,), r),
    ensures
        r.0.reasoning == reasoning.reasoning,
        r.1 == inner,
{
}

} // verus!
