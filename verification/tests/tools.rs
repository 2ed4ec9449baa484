//! Queries of a second model under one budget.

use dspy_rs::modules::rlm::tools::{
    batch_result, ensure_runtime, runtime_error, LlmTools, QueryRuntime, ToolFailure,
};
use tokio::runtime::{Builder, Handle, RuntimeFlavor};

/// A model that answers every prompt but `fail_on`.
struct MockLm {
    calls: Vec<String>,
    fail_on: Option<String>,
}

impl MockLm {
    fn new() -> Self {
        MockLm { calls: vec![], fail_on: None }
    }

    fn query(&mut self, prompt: &str) -> Result<String, String> {
        self.calls.push(prompt.to_string());
        if self.fail_on.as_deref() == Some(prompt) {
            return Err(format!("mock failure for {prompt}"));
        }
        Ok(format!("answer:{prompt}"))
    }
}

fn llm_query(tools: &mut LlmTools, lm: &mut MockLm, prompt: &str) -> Result<String, ToolFailure> {
    tools.llm_query(prompt)?;
    lm.query(prompt).map_err(|err| runtime_error(&err))
}

fn llm_query_batched(
    tools: &mut LlmTools,
    lm: &mut MockLm,
    prompts: &[&str],
) -> Result<Vec<String>, ToolFailure> {
    let prompts: Vec<String> = prompts.iter().map(|p| p.to_string()).collect();
    let admitted = tools.llm_query_batched(&prompts)?;
    batch_result(prompts[..admitted.executable].iter().map(|p| lm.query(p)).collect())
}

fn message(failure: ToolFailure) -> String {
    match failure {
        ToolFailure::Value { message } => message,
        ToolFailure::Runtime { message } => message,
    }
}

#[test]
fn llm_query_consumes_budget_and_returns_text() {
    let mut lm = MockLm::new();
    let mut tools = LlmTools::with_budget(2);

    let first = llm_query(&mut tools, &mut lm, "hello").expect("first call");
    assert_eq!(first, "answer:hello");
    assert_eq!(tools.call_count(), 1);

    let second = llm_query(&mut tools, &mut lm, "world").expect("second call");
    assert_eq!(second, "answer:world");
    assert_eq!(tools.call_count(), 2);

    assert_eq!(lm.calls, vec!["hello".to_string(), "world".to_string()]);
}

#[test]
fn budget_exhaustion_returns_retryable_runtime_error() {
    let mut lm = MockLm::new();
    let mut tools = LlmTools::with_budget(1);
    let _ = llm_query(&mut tools, &mut lm, "one").expect("first call");

    let err = message(
        llm_query(&mut tools, &mut lm, "two").expect_err("budget should be exhausted"),
    );
    assert!(err.contains("budget exhausted"));
    assert!(err.contains("retryable"));
}

#[test]
fn llm_query_batched_runs_all_prompts() {
    let mut lm = MockLm::new();
    let mut tools = LlmTools::with_budget(5);

    let responses =
        llm_query_batched(&mut tools, &mut lm, &["a", "b", "c"]).expect("batched call");
    assert_eq!(responses, vec!["answer:a", "answer:b", "answer:c"]);
    assert_eq!(tools.call_count(), 3);

    let mut calls = lm.calls.clone();
    calls.sort();
    assert_eq!(calls, vec!["a", "b", "c"]);
}

#[test]
fn llm_query_batched_propagates_runtime_errors() {
    let mut lm = MockLm::new();
    lm.fail_on = Some("bad".to_string());

    let mut tools = LlmTools::with_budget(3);
    let err = message(
        llm_query_batched(&mut tools, &mut lm, &["ok", "bad"])
            .expect_err("second prompt should fail"),
    );
    assert!(err.contains("mock failure for bad"));
}

#[test]
fn llm_query_batched_executes_partial_batch_when_budget_is_short() {
    let mut lm = MockLm::new();
    let mut tools = LlmTools::with_budget(2);

    let responses = llm_query_batched(&mut tools, &mut lm, &["one", "two", "three"])
        .expect("partial batch should succeed");
    assert_eq!(responses, vec!["answer:one", "answer:two"]);
    assert_eq!(tools.remaining_calls(), 0);

    assert_eq!(lm.calls, vec!["one".to_string(), "two".to_string()]);
}

#[test]
fn llm_query_batched_returns_empty_when_budget_is_zero() {
    let mut lm = MockLm::new();
    let mut tools = LlmTools::with_budget(1);
    let _ = llm_query(&mut tools, &mut lm, "one").expect("first call");
    assert_eq!(tools.remaining_calls(), 0);

    let responses = llm_query_batched(&mut tools, &mut lm, &["two", "three"])
        .expect("zero-budget batch should not error");
    assert!(responses.is_empty());

    assert_eq!(lm.calls, vec!["one".to_string()]);
}

#[test]
fn shared_budget_is_enforced_across_single_and_batched_calls() {
    let mut lm = MockLm::new();
    let mut tools = LlmTools::with_budget(3);

    let first = llm_query(&mut tools, &mut lm, "one").expect("first call");
    assert_eq!(first, "answer:one");
    assert_eq!(tools.remaining_calls(), 2);

    let responses =
        llm_query_batched(&mut tools, &mut lm, &["two", "three"]).expect("batched call");
    assert_eq!(responses, vec!["answer:two", "answer:three"]);
    assert_eq!(tools.remaining_calls(), 0);

    let err = message(
        llm_query(&mut tools, &mut lm, "four").expect_err("budget should be exhausted"),
    );
    assert!(err.contains("budget exhausted"));
}

#[test]
fn empty_batched_call_returns_immediately_without_consuming_budget() {
    let mut lm = MockLm::new();
    let mut tools = LlmTools::with_budget(2);

    let responses =
        llm_query_batched(&mut tools, &mut lm, &[]).expect("empty batch should be valid");
    assert!(responses.is_empty());
    assert_eq!(tools.remaining_calls(), 2);
}

#[test]
fn blank_prompts_are_refused_without_consuming_budget() {
    let mut lm = MockLm::new();
    let mut tools = LlmTools::with_budget(2);
    assert!(matches!(
        llm_query(&mut tools, &mut lm, "  "),
        Err(ToolFailure::Value { .. })
    ));
    assert!(matches!(
        llm_query_batched(&mut tools, &mut lm, &["one", ""]),
        Err(ToolFailure::Value { .. })
    ));
    assert_eq!(tools.remaining_calls(), 2);
    assert!(lm.calls.is_empty());
}

/// The runtime that a query would find here.
fn runtime_here() -> QueryRuntime {
    match Handle::try_current() {
        Err(err) => QueryRuntime::Missing { error: err.to_string() },
        Ok(current) if current.runtime_flavor() == RuntimeFlavor::CurrentThread => {
            QueryRuntime::CurrentThread
        }
        Ok(_) => QueryRuntime::MultiThread,
    }
}

#[test]
fn current_thread_runtime_returns_clear_error_instead_of_panicking() {
    let rt = Builder::new_current_thread().enable_all().build().expect("runtime");

    rt.block_on(async {
        let mut tools = LlmTools::with_budget(1);
        tools.llm_query("hello").expect("budget");
        let err = ensure_runtime(&runtime_here())
            .expect_err("current-thread runtime should fail gracefully");

        let message = message(err);
        assert!(message.contains("multi-thread Tokio runtime"));
        assert!(message.contains("current-thread"));
    });
}

#[test]
fn queries_need_a_runtime_with_threads() {
    let err = message(ensure_runtime(&runtime_here()).expect_err("no runtime"));
    assert!(err.starts_with("[Error] RuntimeError: an active Tokio runtime is required: "));
    let rt = Builder::new_multi_thread().worker_threads(1).build().expect("runtime");
    rt.block_on(async {
        assert!(ensure_runtime(&runtime_here()).is_ok());
    });
}
