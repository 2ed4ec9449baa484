//! Code of a turn: how it is prepared, and what its run becomes.

use dspy_rs::modules::rlm::exec::{
    after_first_run, after_repaired_run, combine_stdout_and_traceback, prepare_repl_code,
    preprocess_repl_code, repair_submit_code, truncate_capture_output, ExecStep, RunOutcome,
};

const NO_OUTPUT_MESSAGE: &str = "(no output - did you forget to print?)";

/// Runs code on an interpreter that answers with these outcomes, in this order.
fn execute(code: &str, outcomes: Vec<RunOutcome>, max: usize) -> Result<String, String> {
    let prepared = prepare_repl_code(code);
    match after_first_run(&prepared, &outcomes[0], max) {
        ExecStep::Done(result) => result,
        ExecStep::Rerun { .. } => after_repaired_run(&outcomes[0], &outcomes[1], max),
    }
}

fn completed(stdout: &str, repr: Option<&str>) -> RunOutcome {
    RunOutcome::Completed {
        stdout: stdout.to_string(),
        repr: repr.map(|r| r.to_string()),
    }
}

fn failed(stdout: &str, traceback: &str, message: &str) -> RunOutcome {
    RunOutcome::Failed {
        stdout: Some(stdout.to_string()),
        traceback: Some(traceback.to_string()),
        message: message.to_string(),
    }
}

#[test]
fn executes_expression_and_returns_repr() {
    let output = execute("1 + 2", vec![completed("", Some("3"))], 100).expect("exec");
    assert_eq!(output, "3");
}

#[test]
fn combines_stdout_and_repr() {
    let output = execute("print('hi')\n2 + 3", vec![completed("hi\n", Some("5"))], 100)
        .expect("exec");
    assert_eq!(output, "hi\n5");
}

#[test]
fn suppresses_output_on_trailing_semicolon() {
    assert!(prepare_repl_code("2 + 3;").suppress_output);
    assert!(!prepare_repl_code("2 + 3").suppress_output);
    let output = execute("2 + 3;", vec![completed("", None)], 100).expect("exec");
    assert_eq!(output, NO_OUTPUT_MESSAGE);
}

#[test]
fn returns_no_output_message_when_no_stdout_or_repr() {
    let output = execute("x = 10", vec![completed("", None)], 100).expect("exec");
    assert_eq!(output, NO_OUTPUT_MESSAGE);
}

#[test]
fn truncates_with_head_and_tail() {
    let output = execute(
        "print('abcdefghijklmnopqrstuvwxyz')",
        vec![completed("abcdefghijklmnopqrstuvwxyz\n", None)],
        10,
    )
    .expect("exec");
    assert!(output.contains("... [STDOUT TRUNCATED: Exceeded 10 char threshold]"));
    assert!(output.starts_with("abcde"));
    assert!(output.contains("wxyz\n"));
    assert!(output.ends_with("... [STDOUT TRUNCATED: Exceeded 10 char threshold]"));
}

#[test]
fn submit_terminated_is_treated_as_success_path() {
    let output = execute(
        "print('before submit')\nraise SubmitTerminated('done')",
        vec![RunOutcome::Submitted { stdout: Some("before submit\n".to_string()) }],
        200,
    )
    .expect("exec");
    assert_eq!(output, "before submit\n");
}

#[test]
fn syntax_errors_return_err_string() {
    let err = execute(
        "if True print('x')",
        vec![failed(
            "",
            "Traceback (most recent call last):\nSyntaxError: invalid syntax\n",
            "SyntaxError: invalid syntax",
        )],
        100,
    )
    .expect_err("should fail");
    assert!(err.contains("SyntaxError"));
    assert!(err.contains("Traceback"));
}

#[test]
fn includes_stdout_and_traceback_on_python_errors() {
    let err = execute(
        "print('before failure')\nraise ValueError('boom')",
        vec![failed(
            "before failure\n",
            "Traceback (most recent call last):\nValueError: boom\n",
            "ValueError: boom",
        )],
        500,
    )
    .expect_err("should fail");
    assert!(err.contains("before failure"));
    assert!(err.contains("Traceback"));
    assert!(err.contains("ValueError: boom"));
}

#[test]
fn import_errors_include_traceback_and_exception_type() {
    let err = execute(
        "import definitely_missing_module_xyz",
        vec![failed(
            "",
            "Traceback (most recent call last):\nModuleNotFoundError: No module named 'definitely_missing_module_xyz'\n",
            "ModuleNotFoundError: No module named 'definitely_missing_module_xyz'",
        )],
        500,
    )
    .expect_err("should fail");

    assert!(err.contains("Traceback"));
    assert!(
        err.contains("ModuleNotFoundError")
            || err.contains("ImportError")
            || err.contains("AttributeError"),
        "expected import-related failure class in traceback: {err}"
    );
    assert!(
        err.contains("definitely_missing_module_xyz")
            || err.contains("partially initialized module"),
        "expected import target or fallback import error context: {err}"
    );
}

#[test]
fn truncates_error_output_with_budget() {
    let err = execute(
        "print('abcdefghijklmnopqrstuvwxyz')\nraise RuntimeError('abcdefghijklmnopqrstuvwxyz')",
        vec![failed(
            "abcdefghijklmnopqrstuvwxyz\n",
            "Traceback (most recent call last):\nRuntimeError: abcdefghijklmnopqrstuvwxyz\n",
            "RuntimeError: abcdefghijklmnopqrstuvwxyz",
        )],
        20,
    )
    .expect_err("should fail");
    assert!(err.contains("... [STDOUT TRUNCATED: Exceeded 20 char threshold]"));
    assert!(err.chars().count() > 20);
}

#[test]
fn truncation_is_unicode_safe_for_multibyte_characters() {
    let text = "😀".repeat(40);
    let truncated = truncate_capture_output(&text, 9);

    assert!(truncated.contains("... [STDOUT TRUNCATED: Exceeded 9 char threshold]"));
    assert!(truncated.is_char_boundary(truncated.len()));
    assert!(truncated.contains('😀'));
}

#[test]
fn preprocess_strips_markdown_fences() {
    let raw = "```python\nprint('a')\n```\n```py\nprint('b')\n```\n```\nprint('c')\n```";
    let prepared = preprocess_repl_code(raw);
    assert_eq!(prepared, "print('a')\nprint('b')\nprint('c')");
}

#[test]
fn preprocess_strips_leading_prose_until_python() {
    let raw = "Let me start by exploring the data first.\n\n```python\n# First, inspect\na = 1\nprint(a)\n```";
    let prepared = preprocess_repl_code(raw);
    assert_eq!(prepared, "# First, inspect\na = 1\nprint(a)");
}

#[test]
fn execute_repl_code_handles_failed_turn_one_pattern() {
    let raw = "Let me start by exploring the data to understand the structure and then systematically find recurring corrections.\n\n```python\n# First, explore the data structure\nprint('ok')\n```";
    assert_eq!(
        prepare_repl_code(raw).code,
        "# First, explore the data structure\nprint('ok')"
    );
    let output = execute(raw, vec![completed("ok\n", None)], 500).expect("exec");
    assert_eq!(output, "ok\n");
}

#[test]
fn repair_submit_code_closes_unterminated_triple_quote_and_paren() {
    let repaired = repair_submit_code("SUBMIT(direct_answer=\"\"\"hello")
        .expect("repair should produce code");
    assert_eq!(repaired, "SUBMIT(direct_answer=\"\"\"hello\"\"\")");
}

#[test]
fn execute_repl_code_repairs_unterminated_submit_payload() {
    let code = "SUBMIT(direct_answer=\"\"\"hello";
    let first = failed(
        "",
        "SyntaxError: unterminated triple-quoted string literal (detected at line 1)",
        "SyntaxError",
    );
    match after_first_run(&prepare_repl_code(code), &first, 500) {
        ExecStep::Rerun { code, suppress_output } => {
            assert_eq!(code, "SUBMIT(direct_answer=\"\"\"hello\"\"\")");
            assert!(!suppress_output);
        }
        other => panic!("expected a second run, got: {other:?}"),
    }
    let output = execute(code, vec![first, RunOutcome::Submitted { stdout: None }], 500)
        .expect("submit should recover");
    assert_eq!(output, NO_OUTPUT_MESSAGE);
}

#[test]
fn repaired_code_is_not_repaired_again() {
    for code in [
        "SUBMIT(direct_answer=\"\"\"hello",
        "SUBMIT(a='''it\"\"\"s",
        "SUBMIT(a=f(1, g(2",
        "SUBMIT(a=\"\"\"x\"  \n",
        "x = SUBMIT(1)\nSUBMIT(a=\"\"\"\"",
    ] {
        let repaired = repair_submit_code(code).expect("something is open");
        assert!(repair_submit_code(&repaired).is_none(), "{code}");
    }
}

#[test]
fn other_errors_are_not_repaired() {
    let code = "SUBMIT(direct_answer=\"\"\"hello";
    let first = failed("", "NameError: name 'SUBMIT' is not defined", "NameError");
    match after_first_run(&prepare_repl_code(code), &first, 500) {
        ExecStep::Done(Err(message)) => {
            assert_eq!(message, "NameError: name 'SUBMIT' is not defined")
        }
        other => panic!("expected a failure, got: {other:?}"),
    }
    assert!(repair_submit_code("SUBMIT(direct_answer=\"done\")").is_none());
}

#[test]
fn short_output_is_kept_and_long_output_keeps_both_ends() {
    assert_eq!(truncate_capture_output("0123456789", 10), "0123456789");
    assert_eq!(
        truncate_capture_output("0123456789abc", 4),
        "01\nbc\n... [STDOUT TRUNCATED: Exceeded 4 char threshold]"
    );
}

#[test]
fn a_traceback_follows_what_was_printed() {
    assert_eq!(
        combine_stdout_and_traceback("out\n".to_string(), "Traceback".to_string()),
        "out\nTraceback"
    );
    assert_eq!(
        combine_stdout_and_traceback(String::new(), "Traceback".to_string()),
        "Traceback"
    );
}
