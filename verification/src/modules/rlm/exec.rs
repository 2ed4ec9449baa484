//! Preparing the code of a turn for the interpreter, and presenting what it printed.

use vstd::prelude::*;

use crate::text;
use crate::text_laws;

verus! {

/// The line opens or closes a Markdown code fence.
pub open spec fn is_fence(line: Seq<char>) -> bool {
    text::has_prefix(text::trim_start(line), "```"@)
}

/// The lines that are no fences.
pub open spec fn unfenced(lines: Seq<Seq<char>>) -> Seq<Seq<char>>
    decreases lines.len(),
{
    if lines.len() == 0 {
        Seq::empty()
    } else if is_fence(lines.last()) {
        unfenced(lines.drop_last())
    } else {
        unfenced(lines.drop_last()).push(lines.last())
    }
}

/// The text without its fence lines.
pub fn strip_markdown_fence_lines(text: &str) -> (r: String)
    ensures
        r@ == text::join(unfenced(text::lines(text@)), "\n"@),
{
    let lines = text::lines_of(text);
    let mut kept: Vec<String> = Vec::new();
    let mut i: usize = 0;
    proof {
        assert(text::views(lines@).take(0) =~= Seq::empty());
        assert(text::views(kept@) =~= Seq::empty());
    }
    while i < lines.len()
        invariant
            i <= lines@.len(),
            text::views(kept@) == unfenced(text::views(lines@).take(i as int)),
        decreases lines@.len() - i,
    {
        let lead = text::trim_start_str(lines[i].as_str());
        let ghost before = kept@;
        proof {
            let next = text::views(lines@).take(i + 1);
            assert(next.drop_last() =~= text::views(lines@).take(i as int));
            assert(next.last() == lines@[i as int]@);
        }
        if !text::starts_with_str(lead.as_str(), "```") {
            kept.push(lines[i].clone());
            proof {
                assert(text::views(kept@) =~= text::views(before).push(lines@[i as int]@));
            }
        }
        i += 1;
    }
    proof {
        assert(text::views(lines@).take(i as int) =~= text::views(lines@));
    }
    text::join_strs(&kept, "\n")
}

/// A line that reads as Python rather than as prose.
pub open spec fn python_line(line: Seq<char>) -> bool {
    let t = text::trim_start(line);
    let lower = text::lower_text(t);
    t.len() > 0 && {
        ||| t[0] == '#'
        ||| t[0] == '['
        ||| t[0] == '{'
        ||| t.contains('=')
        ||| t.contains('(')
        ||| text::has_prefix(lower, "import "@)
        ||| text::has_prefix(lower, "from "@)
        ||| text::has_prefix(lower, "print"@)
        ||| text::has_prefix(lower, "def "@)
        ||| text::has_prefix(lower, "for "@)
        ||| text::has_prefix(lower, "if "@)
        ||| text::has_prefix(lower, "while "@)
        ||| text::has_prefix(lower, "try:"@)
        ||| text::has_prefix(lower, "with "@)
        ||| text::has_prefix(lower, "class "@)
    }
}

pub fn looks_like_python_line(line: &str) -> (r: bool)
    ensures
        r == python_line(line@),
{
    let trimmed = text::trim_start_str(line);
    let c = text::chars_of(trimmed.as_str());
    if c.len() == 0 {
        return false;
    }
    if c[0] == '#' || c[0] == '[' || c[0] == '{' || text::has_char(&c, '=') || text::has_char(
        &c,
        '(',
    ) {
        return true;
    }
    let lower = text::lower_str(trimmed.as_str());
    let l = lower.as_str();
    text::starts_with_str(l, "import ") || text::starts_with_str(l, "from ")
        || text::starts_with_str(l, "print") || text::starts_with_str(l, "def ")
        || text::starts_with_str(l, "for ") || text::starts_with_str(l, "if ")
        || text::starts_with_str(l, "while ") || text::starts_with_str(l, "try:")
        || text::starts_with_str(l, "with ") || text::starts_with_str(l, "class ")
}

/// The line holds code: it is not blank and reads as Python.
pub open spec fn code_line(line: Seq<char>) -> bool {
    text::trim(line).len() > 0 && python_line(text::trim(line))
}

/// The position of the first line of code at or after `from`, or the number of lines.
pub open spec fn first_code(lines: Seq<Seq<char>>, from: int) -> int
    decreases lines.len() - from,
{
    if from >= lines.len() || code_line(lines[from]) {
        from
    } else {
        first_code(lines, from + 1)
    }
}

/// The text from its first line of code on, or all of it when no line is code.
pub open spec fn from_first_code(s: Seq<char>) -> Seq<char> {
    let lines = text::lines(s);
    let at = first_code(lines, 0);
    text::trim_end(
        if at < lines.len() {
            text::join(lines.skip(at), "\n"@)
        } else {
            s
        },
    )
}

pub fn strip_leading_non_python_lines(text: &str) -> (r: String)
    ensures
        r@ == from_first_code(text@),
{
    let mut lines = text::lines_of(text);
    let ghost all = text::views(lines@);
    let mut at: usize = 0;
    while at < lines.len()
        invariant
            at <= lines@.len(),
            all == text::views(lines@),
            all == text::lines(text@),
            first_code(all, 0) == first_code(all, at as int),
        decreases lines@.len() - at,
    {
        let trimmed = text::trim_str(lines[at].as_str());
        proof {
            assert(all[at as int] == lines@[at as int]@);
        }
        if !trimmed.as_str().is_empty() && looks_like_python_line(trimmed.as_str()) {
            proof {
                assert(code_line(all[at as int]));
                assert(first_code(all, at as int) == at);
            }
            let tail = lines.split_off(at);
            proof {
                assert(text::views(tail@) =~= all.skip(at as int));
            }
            let selected = text::join_strs(&tail, "\n");
            return text::trim_end_str(selected.as_str());
        }
        at += 1;
    }
    text::trim_end_str(text)
}

/// What the interpreter is handed for a reply: no fences, and nothing before the first
/// line of code.
pub open spec fn prepared(code: Seq<char>) -> Seq<char> {
    from_first_code(text::join(unfenced(text::lines(code)), "\n"@))
}

pub fn preprocess_repl_code(code: &str) -> (r: String)
    ensures
        r@ == prepared(code@),
{
    let without_fences = strip_markdown_fence_lines(code);
    strip_leading_non_python_lines(without_fences.as_str())
}

/// The text with a quote appended when it holds an odd number of them.
pub open spec fn close_quote(s: Seq<char>, quote: Seq<char>) -> Seq<char> {
    if text::count_of(s, quote) % 2 != 0 {
        s + quote
    } else {
        s
    }
}

/// The text with the parentheses closed that its last `SUBMIT(` leaves open.
pub open spec fn close_parens(s: Seq<char>) -> Seq<char> {
    let at = text::last_index(s, "SUBMIT("@, s.len() as int);
    if at < 0 {
        s
    } else {
        let tail = s.skip(at);
        let open = text::count_char(tail, '(') as int;
        let closed = text::count_char(tail, ')') as int;
        if open > closed {
            s + text::repeat(')', (open - closed) as nat)
        } else {
            s
        }
    }
}

/// The code with its quotes and its last `SUBMIT(` closed.
pub open spec fn submit_closed(code: Seq<char>) -> Seq<char> {
    close_parens(close_quote(close_quote(text::trim_end(code), "\"\"\""@), "'''"@))
}

fn close_quote_str(s: String, quote: &str) -> (r: (String, bool))
    requires
        quote@.len() > 0,
    ensures
        r.0@ == close_quote(s@, quote@),
        r.1 == (r.0@ != s@),
        r.0@.len() >= s@.len(),
        !r.1 ==> r.0@ == s@,
        r.1 ==> r.0@.len() > s@.len(),
{
    let mut out = s;
    if text::count_str(out.as_str(), quote) % 2 != 0 {
        out.append(quote);
        (out, true)
    } else {
        (out, false)
    }
}

/// Closes what a truncated `SUBMIT(..)` call leaves open. `None` when the code submits
/// nothing, or nothing is open.
pub fn repair_submit_code(code: &str) -> (r: Option<String>)
    ensures
        match r {
            Some(s) => text::has_text(code@, "SUBMIT("@) && submit_closed(code@)
                != text::trim_end(code@) && s@ == submit_closed(code@),
            None => !text::has_text(code@, "SUBMIT("@) || submit_closed(code@) == text::trim_end(
                code@,
            ),
        },
{
    if !text::contains_str(code, "SUBMIT(") {
        return None;
    }
    proof {
        reveal_strlit("\"\"\"");
        reveal_strlit("'''");
    }
    let trimmed = text::trim_end_str(code);
    let (first, first_changed) = close_quote_str(trimmed, "\"\"\"");
    let (second, second_changed) = close_quote_str(first, "'''");
    let mut repaired = second;
    let mut changed = first_changed || second_changed;
    let c = text::chars_of(repaired.as_str());
    let p = text::chars_of("SUBMIT(");
    match text::find_last(&c, &p) {
        Some(at) => {
            let n = c.len();
            let tail = &c[at..n];
            proof {
                assert(tail@ =~= c@.skip(at as int));
            }
            let open_parens = text::count_char_in(tail, '(');
            let close_parens = text::count_char_in(tail, ')');
            if open_parens > close_parens {
                text::push_repeat(&mut repaired, ')', open_parens - close_parens);
                changed = true;
            }
        },
        None => {},
    }
    if changed {
        Some(repaired)
    } else {
        None
    }
}

/// The text ends in no white space, and the quotes in it are closed.
spec fn tidy(s: Seq<char>) -> bool {
    &&& s.len() > 0 ==> !text::is_space(s.last())
    &&& text::count_of(s, "\"\"\""@) % 2 == 0
    &&& text::count_of(s, "'''"@) % 2 == 0
}

proof fn lemma_quotes_closed(code: Seq<char>)
    ensures
        tidy(close_quote(close_quote(text::trim_end(code), "\"\"\""@), "'''"@)),
{
    reveal_strlit("\"\"\"");
    reveal_strlit("'''");
    let double = "\"\"\""@;
    let single = "'''"@;
    let trimmed = text::trim_end(code);
    let first = close_quote(trimmed, double);
    text::lemma_trim_end_trims(code);
    text::lemma_count_of_with_triple(trimmed, double, '"');
    assert(text::count_of(first, double) % 2 == 0);
    text::lemma_count_of_with_foreign(first, single, double, '"');
    text::lemma_count_of_with_triple(first, single, '\'');
}

proof fn lemma_parens_closed(s: Seq<char>)
    requires
        tidy(s),
    ensures
        tidy(close_parens(s)),
        close_parens(close_parens(s)) == close_parens(s),
{
    reveal_strlit("\"\"\"");
    reveal_strlit("'''");
    reveal_strlit("SUBMIT(");
    let at = text::last_index(s, "SUBMIT("@, s.len() as int);
    if at >= 0 {
        let tail = s.skip(at);
        let open = text::count_char(tail, '(') as int;
        let closed = text::count_char(tail, ')') as int;
        if open > closed {
            let n = (open - closed) as nat;
            let more = text::repeat(')', n);
            let all = s + more;
            text::lemma_count_of_with_foreign(s, more, "\"\"\""@, '"');
            text::lemma_count_of_with_foreign(s, more, "'''"@, '\'');
            text::lemma_last_index_with_tail(s, more, "SUBMIT("@);
            text::lemma_last_index(s, "SUBMIT("@, s.len() as int);
            assert(all.skip(at) =~= tail + more);
            text::lemma_count_char_of_both(tail, more, '(');
            text::lemma_count_char_of_both(tail, more, ')');
            text::lemma_count_char_of_repeat(')', n, '(');
            text::lemma_count_char_of_repeat(')', n, ')');
        }
    }
}

/// A repaired call needs no further repair: nothing in it is open.
pub proof fn repaired_calls_need_no_repair(code: Seq<char>)
    ensures
        submit_closed(submit_closed(code)) == text::trim_end(submit_closed(code)),
        text::trim_end(submit_closed(code)) == submit_closed(code),
{
    lemma_quotes_closed(code);
    lemma_parens_closed(
        close_quote(close_quote(text::trim_end(code), "\"\"\""@), "'''"@),
    );
}

/// What one run of the interpreter gave.
#[allow(inconsistent_fields)]
#[derive(Debug)]
pub enum RunOutcome {
    /// The code ran to its end.
    Completed { stdout: String, repr: Option<String> },
    /// The code ended itself by submitting.
    Submitted { stdout: Option<String> },
    /// The code raised: what it printed before, its traceback if there is one, and the
    /// message of the exception.
    Failed { stdout: Option<String>, traceback: Option<String>, message: String },
}

/// Code made ready for the interpreter.
#[derive(Debug)]
pub struct PreparedCode {
    pub code: String,
    pub suppress_output: bool,
}

/// What to do next with the code of a turn.
#[derive(Debug)]
pub enum ExecStep {
    /// Run this code in place of the first.
    Rerun { code: String, suppress_output: bool },
    /// The turn is over, with what it printed or how it failed.
    Done(Result<String, String>),
}

fn text_or_empty(s: &Option<String>) -> (r: String)
    ensures
        r@ == text::or_text(*s, Seq::empty()),
{
    match s {
        Some(s) => s.clone(),
        None => String::new(),
    }
}

/// Makes the reply of the model ready to run. A trailing semicolon keeps the value of the
/// last expression from being shown.
pub fn prepare_repl_code(code: &str) -> (r: PreparedCode)
    ensures
        r.code@ == prepared(code@),
        r.suppress_output == text::has_suffix(text::trim_end(prepared(code@)), ";"@),
{
    let prepared_code = preprocess_repl_code(code);
    let trimmed = text::trim_end_str(prepared_code.as_str());
    let suppress_output = text::ends_with_str(trimmed.as_str(), ";");
    PreparedCode { code: prepared_code, suppress_output }
}

/// The output of a run that did not fail.
pub open spec fn run_output(outcome: RunOutcome, max: nat) -> Option<Seq<char>> {
    match outcome {
        RunOutcome::Completed { stdout, repr } => Some(shown(stdout@, text::opt_view(repr), max)),
        RunOutcome::Submitted { stdout } => Some(shown(text::or_text(stdout, Seq::empty()), None, max)),
        RunOutcome::Failed { .. } => None,
    }
}

pub fn output_of_run(outcome: &RunOutcome, max_output_chars: usize) -> (r: Option<String>)
    ensures
        text::opt_view(r) == run_output(*outcome, max_output_chars as nat),
{
    match outcome {
        RunOutcome::Completed { stdout, repr } => {
            let repr_copy = match repr {
                Some(s) => Some(s.clone()),
                None => None,
            };
            Some(format_output(stdout.clone(), repr_copy, max_output_chars))
        },
        RunOutcome::Submitted { stdout } => Some(
            format_output(text_or_empty(stdout), None, max_output_chars),
        ),
        RunOutcome::Failed { .. } => None,
    }
}

/// The traceback tells of a string literal that was never closed.
pub open spec fn unterminated(traceback: Seq<char>) -> bool {
    text::has_text(traceback, "SyntaxError"@) && (text::has_text(
        traceback,
        "unterminated triple-quoted string literal"@,
    ) || text::has_text(traceback, "unterminated string literal"@))
}

/// The code to try in place of a failed one.
pub open spec fn repaired_code(code: Seq<char>, traceback: Option<Seq<char>>) -> Option<
    Seq<char>,
> {
    match traceback {
        Some(t) => if text::has_text(code, "SUBMIT("@) && unterminated(t) && submit_closed(code)
            != text::trim_end(code) {
            Some(submit_closed(code))
        } else {
            None
        },
        None => None,
    }
}

pub fn maybe_repair_submit_code(code: &str, traceback: &Option<String>) -> (r: Option<String>)
    ensures
        text::opt_view(r) == repaired_code(code@, text::opt_view(*traceback)),
{
    if !text::contains_str(code, "SUBMIT(") {
        return None;
    }
    match traceback {
        None => None,
        Some(t) => {
            if !text::contains_str(t.as_str(), "SyntaxError") || (!text::contains_str(
                t.as_str(),
                "unterminated triple-quoted string literal",
            ) && !text::contains_str(t.as_str(), "unterminated string literal")) {
                return None;
            }
            repair_submit_code(code)
        },
    }
}

/// The message of a failed run: what it printed, then its traceback, or the message of the
/// exception when it has none.
pub open spec fn failure_text(outcome: RunOutcome, max: nat) -> Seq<char> {
    match outcome {
        RunOutcome::Failed { stdout, traceback, message } => captured(
            joined(
                text::or_text(stdout, Seq::empty()),
                match traceback {
                    Some(t) => t@,
                    None => message@,
                },
            ),
            max,
        ),
        _ => Seq::empty(),
    }
}

/// Decides what follows the first run of the prepared code: its output, a second run of the
/// repaired code, or its failure.
pub fn after_first_run(
    prepared_code: &PreparedCode,
    outcome: &RunOutcome,
    max_output_chars: usize,
) -> (r: ExecStep)
    ensures
        match run_output(*outcome, max_output_chars as nat) {
            Some(output) => r matches ExecStep::Done(Ok(s)) && s@ == output,
            None => match repaired_code(
                prepared_code.code@,
                text::opt_view(outcome->Failed_traceback),
            ) {
                Some(code) => r matches ExecStep::Rerun { code: c, suppress_output: s } && c@
                    == code && s == prepared_code.suppress_output,
                None => r matches ExecStep::Done(Err(e)) && e@ == failure_text(
                    *outcome,
                    max_output_chars as nat,
                ),
            },
        },
{
    match output_of_run(outcome, max_output_chars) {
        Some(output) => ExecStep::Done(Ok(output)),
        None => {
            match outcome {
                RunOutcome::Failed { stdout: _, traceback, message: _ } => {
                    match maybe_repair_submit_code(prepared_code.code.as_str(), traceback) {
                        Some(code) => ExecStep::Rerun {
                            code,
                            suppress_output: prepared_code.suppress_output,
                        },
                        None => ExecStep::Done(Err(describe_failure(outcome, max_output_chars))),
                    }
                },
                _ => ExecStep::Done(Err(describe_failure(outcome, max_output_chars))),
            }
        },
    }
}

/// Decides what the turn gave once the repaired code ran: its output, or the failure of the
/// first run.
pub fn after_repaired_run(
    first: &RunOutcome,
    repaired: &RunOutcome,
    max_output_chars: usize,
) -> (r: Result<String, String>)
    ensures
        match run_output(*repaired, max_output_chars as nat) {
            Some(output) => r matches Ok(s) && s@ == output,
            None => r matches Err(e) && e@ == failure_text(*first, max_output_chars as nat),
        },
{
    match output_of_run(repaired, max_output_chars) {
        Some(output) => Ok(output),
        None => Err(describe_failure(first, max_output_chars)),
    }
}

fn describe_failure(outcome: &RunOutcome, max_output_chars: usize) -> (r: String)
    ensures
        r@ == failure_text(*outcome, max_output_chars as nat),
{
    match outcome {
        RunOutcome::Failed { stdout, traceback, message } => {
            let out = text_or_empty(stdout);
            let trace = match traceback {
                Some(t) => t.clone(),
                None => message.clone(),
            };
            let combined = combine_stdout_and_traceback(out, trace);
            truncate_capture_output(combined.as_str(), max_output_chars)
        },
        _ => String::new(),
    }
}

/// What was printed, then the traceback on a line of its own.
pub open spec fn joined(stdout: Seq<char>, traceback: Seq<char>) -> Seq<char> {
    if stdout.len() == 0 {
        traceback
    } else if stdout.last() == '\n' {
        stdout + traceback
    } else {
        stdout + "\n"@ + traceback
    }
}

fn ends_with_break(s: &str) -> (r: bool)
    ensures
        r == (s@.len() > 0 && s@.last() == '\n'),
{
    let c = text::chars_of(s);
    c.len() > 0 && c[c.len() - 1] == '\n'
}

pub fn combine_stdout_and_traceback(stdout: String, traceback: String) -> (r: String)
    ensures
        r@ == joined(stdout@, traceback@),
{
    if stdout.as_str().is_empty() {
        return traceback;
    }
    let mut out = stdout;
    if !ends_with_break(out.as_str()) {
        out.append("\n");
    }
    out.append(traceback.as_str());
    out
}

/// What a run shows: its output and the value of its last expression on a line of its own,
/// or a note that there is neither.
pub open spec fn shown(stdout: Seq<char>, repr: Option<Seq<char>>, max: nat) -> Seq<char> {
    let all = match repr {
        Some(v) => joined(stdout, v),
        None => stdout,
    };
    captured(
        if all.len() == 0 {
            "(no output - did you forget to print?)"@
        } else {
            all
        },
        max,
    )
}

pub fn format_output(stdout: String, repr: Option<String>, max_chars: usize) -> (r: String)
    ensures
        r@ == shown(stdout@, text::opt_view(repr), max_chars as nat),
{
    let mut output = stdout;
    match repr {
        Some(v) => {
            output = combine_stdout_and_traceback(output, v);
        },
        None => {},
    }
    if output.as_str().is_empty() {
        output = "(no output - did you forget to print?)".to_owned();
    }
    truncate_capture_output(output.as_str(), max_chars)
}

/// The note that closes a shortened capture.
pub open spec fn truncation_notice(max: nat) -> Seq<char> {
    "... [STDOUT TRUNCATED: Exceeded "@ + text::decimal(max) + " char threshold]"@
}

/// A capture cut to its first and last characters when it is longer than `max`.
pub open spec fn captured(s: Seq<char>, max: nat) -> Seq<char> {
    if max == 0 {
        Seq::empty()
    } else if s.len() <= max {
        s
    } else {
        s.take((max / 2) as int) + "\n"@ + s.skip(s.len() - (max - max / 2)) + "\n"@
            + truncation_notice(max)
    }
}

pub fn truncate_capture_output(text: &str, max_chars: usize) -> (r: String)
    ensures
        r@ == captured(text@, max_chars as nat),
{
    if max_chars == 0 {
        return String::new();
    }
    let c = text::chars_of(text);
    let total = c.len();
    if total <= max_chars {
        return text.to_owned();
    }
    let head_len: usize = max_chars / 2;
    let tail_len: usize = max_chars - head_len;
    let head = &c[0..head_len];
    let tail = &c[total - tail_len..total];
    proof {
        assert(head@ =~= c@.take(head_len as int));
        assert(tail@ =~= c@.skip(total - tail_len));
    }
    let mut out = text::string_of(head);
    out.append("\n");
    out.append(text::string_of(tail).as_str());
    out.append("\n");
    let mut notice = "... [STDOUT TRUNCATED: Exceeded ".to_owned();
    text::push_decimal(&mut notice, max_chars as u64);
    notice.append(" char threshold]");
    out.append(notice.as_str());
    out
}

/// Every capture that is cut keeps exactly as many characters as it may show, half of them
/// from its beginning and the rest from its end.
pub proof fn captured_keeps_head_and_tail(s: Seq<char>, max: nat)
    requires
        max > 0,
        s.len() > max,
    ensures
        captured(s, max).take((max / 2) as int) == s.take((max / 2) as int),
        captured(s, max).len() == max + 2 + truncation_notice(max).len(),
        text::has_suffix(captured(s, max), truncation_notice(max)),
{
    reveal_strlit("\n");
    let head = s.take((max / 2) as int);
    let notice = truncation_notice(max);
    let r = captured(s, max);
    assert(r.take((max / 2) as int) =~= head);
    assert(r.subrange(r.len() - notice.len(), r.len() as int) =~= notice);
}

proof fn lemma_unfenced_of_both(a: Seq<Seq<char>>, b: Seq<Seq<char>>)
    ensures
        unfenced(a + b) == unfenced(a) + unfenced(b),
    decreases b.len(),
{
    if b.len() == 0 {
        assert(a + b =~= a);
        assert(unfenced(a) + unfenced(b) =~= unfenced(a));
    } else {
        assert((a + b).drop_last() =~= a + b.drop_last());
        lemma_unfenced_of_both(a, b.drop_last());
        if !is_fence(b.last()) {
            assert((unfenced(a) + unfenced(b.drop_last())).push(b.last()) =~= unfenced(a)
                + unfenced(b.drop_last()).push(b.last()));
        }
    }
}

/// Of each line that is left it holds what holds of the lines before.
proof fn lemma_unfenced_among(lines: Seq<Seq<char>>, i: int) -> (k: int)
    requires
        0 <= i < unfenced(lines).len(),
    ensures
        0 <= k < lines.len(),
        unfenced(lines)[i] == lines[k],
        !is_fence(lines[k]),
    decreases lines.len(),
{
    let front = lines.drop_last();
    if is_fence(lines.last()) {
        lemma_unfenced_among(front, i)
    } else if i < unfenced(front).len() {
        lemma_unfenced_among(front, i)
    } else {
        lines.len() - 1
    }
}

proof fn lemma_all_unfenced(lines: Seq<Seq<char>>)
    requires
        forall|i: int| 0 <= i < lines.len() ==> !is_fence(#[trigger] lines[i]),
    ensures
        unfenced(lines) == lines,
    decreases lines.len(),
{
    if lines.len() > 0 {
        assert forall|i: int| 0 <= i < lines.drop_last().len() implies !is_fence(
            #[trigger] lines.drop_last()[i],
        ) by {
            assert(!is_fence(lines[i]));
        }
        lemma_all_unfenced(lines.drop_last());
        assert(lines.drop_last().push(lines.last()) =~= lines);
    } else {
        assert(unfenced(lines) =~= lines);
    }
}

proof fn lemma_first_code_shift(first: Seq<char>, rest: Seq<Seq<char>>, from: int)
    requires
        0 <= from <= rest.len(),
    ensures
        first_code(seq![first] + rest, from + 1) == first_code(rest, from) + 1,
    decreases rest.len() - from,
{
    let all = seq![first] + rest;
    if from < rest.len() {
        assert(all[from + 1] == rest[from]);
        if !code_line(rest[from]) {
            lemma_first_code_shift(first, rest, from + 1);
        }
    }
}

/// Lines in front that hold no code are left out; the first that does begins the text.
proof fn lemma_from_code_line(lead: Seq<Seq<char>>, line: Seq<char>, rest: Seq<Seq<char>>)
    requires
        forall|i: int|
            0 <= i < lead.len() ==> !(#[trigger] lead[i]).contains('\n') && !code_line(
                text::strip_return(lead[i]),
            ),
        !line.contains('\n'),
        code_line(line),
        code_line(text::strip_return(line)),
    ensures
        ({
            let lines = text::lines(text::join(lead + seq![line] + rest, "\n"@));
            let at = first_code(lines, 0);
            &&& 0 <= at < lines.len()
            &&& lines[at] == line || lines[at] == text::strip_return(line)
        }),
    decreases lead.len(),
{
    let parts = lead + seq![line] + rest;
    let lines = text::lines(text::join(parts, "\n"@));
    if lead.len() == 0 {
        assert(parts =~= seq![line] + rest);
        if rest.len() == 0 {
            assert(text::join(parts, "\n"@) == line);
            text::lemma_line_end(line);
            if text::line_end(line) < line.len() {
                assert(line[text::line_end(line)] == '\n');
                assert(line.contains('\n'));
            }
            text_laws::lemma_trim_start_cuts(line);
            assert(line.len() > 0);
            assert(lines =~= seq![line]);
        } else {
            text_laws::lemma_lines_of_joined(parts);
            assert(lines[0] == text::strip_return(line));
        }
        assert(first_code(lines, 0) == 0);
    } else {
        assert(parts[0] == lead[0]);
        text_laws::lemma_lines_of_joined(parts);
        assert(parts.skip(1) =~= lead.skip(1) + seq![line] + rest);
        assert forall|i: int| 0 <= i < lead.skip(1).len() implies !(
        #[trigger] lead.skip(1)[i]).contains('\n') && !code_line(
            text::strip_return(lead.skip(1)[i]),
        ) by {
            assert(lead.skip(1)[i] == lead[i + 1]);
        }
        lemma_from_code_line(lead.skip(1), line, rest);
        let later = text::lines(text::join(parts.skip(1), "\n"@));
        let first = text::strip_return(lead[0]);
        assert(lines == seq![first] + later);
        lemma_first_code_shift(first, later, 0);
        assert(lines[0] == first);
        assert(first_code(lines, 0) == first_code(lines, 1));
        assert(lines[first_code(lines, 0)] == later[first_code(later, 0)]);
    }
}

proof fn lemma_blank_is_no_code(line: Seq<char>)
    requires
        text::is_blank(line),
    ensures
        !code_line(line),
        !code_line(text::strip_return(line)),
{
    text::lemma_blank_trim(line);
    text_laws::lemma_trim_without_return(line);
}

proof fn lemma_prepared_from(code: Seq<char>, k: int)
    requires
        0 <= k < text::lines(code).len(),
        !is_fence(text::lines(code)[k]),
        code_line(text::lines(code)[k]),
        forall|i: int|
            0 <= i < k ==> is_fence(#[trigger] text::lines(code)[i]) || !code_line(
                text::lines(code)[i],
            ),
    ensures
        text::has_prefix(prepared(code), text::trim_end(text::lines(code)[k])),
{
    let lines = text::lines(code);
    let line = lines[k];
    let before = lines.take(k);
    let after = lines.skip(k + 1);
    assert(lines =~= before + seq![line] + after);
    let lead = unfenced(before);
    let rest = unfenced(after);
    lemma_unfenced_of_both(before + seq![line], after);
    lemma_unfenced_of_both(before, seq![line]);
    lemma_all_unfenced(seq![line]);
    let kept = lead + seq![line] + rest;
    assert(unfenced(lines) == kept);
    assert forall|i: int| 0 <= i < lead.len() implies !(#[trigger] lead[i]).contains('\n')
        && !code_line(text::strip_return(lead[i])) by {
        let j = lemma_unfenced_among(before, i);
        assert(before[j] == lines[j]);
        text_laws::lemma_lines_hold_no_break(code, j);
        text_laws::lemma_trim_without_return(lead[i]);
    }
    text_laws::lemma_lines_hold_no_break(code, k);
    text_laws::lemma_trim_without_return(line);
    lemma_from_code_line(lead, line, rest);
    let body = text::join(kept, "\n"@);
    let split = text::lines(body);
    let at = first_code(split, 0);
    let tail = split.skip(at);
    assert(tail[0] == split[at]);
    text_laws::lemma_join_at(tail, "\n"@, 0);
    text_laws::lemma_trim_end_keeps_prefix(text::join(tail, "\n"@), split[at]);
    if split[at] != line {
        assert(text::trim_end(line) == text::trim_end(text::strip_return(line)));
    }
}

/// The interpreter is handed the first line that begins with a Python statement, whatever blank
/// lines and code fences stand before it: no import, definition, loop, condition or other statement
/// is taken for prose.
pub proof fn statements_are_not_taken_for_prose(code: &str, r: String, k: int)
    requires
        call_ensures(preprocess_repl_code, (code,), r),
        0 <= k < text::lines(code@).len(),
        !text::has_prefix(text::trim_start(text::lines(code@)[k]), "```"@),
        forall|i: int|
            0 <= i < k ==> text::is_blank(#[trigger] text::lines(code@)[i]) || text::has_prefix(
                text::trim_start(text::lines(code@)[i]),
                "```"@,
            ),
        ({
            let line = text::lower_text(text::trim(text::lines(code@)[k]));
            ||| text::has_prefix(line, "import "@)
            ||| text::has_prefix(line, "from "@)
            ||| text::has_prefix(line, "def "@)
            ||| text::has_prefix(line, "class "@)
            ||| text::has_prefix(line, "for "@)
            ||| text::has_prefix(line, "while "@)
            ||| text::has_prefix(line, "if "@)
            ||| text::has_prefix(line, "with "@)
            ||| text::has_prefix(line, "try:"@)
            ||| text::has_prefix(line, "print"@)
        }),
    ensures
        text::has_prefix(r@, text::trim_end(text::lines(code@)[k])),
{
    let line = text::lines(code@)[k];
    lemma_keywords();
    text_laws::lemma_trim_again(line);
    assert(text::trim(line).len() > 0);
    assert(code_line(line));
    assert forall|i: int| 0 <= i < k implies is_fence(#[trigger] text::lines(code@)[i])
        || !code_line(text::lines(code@)[i]) by {
        if text::is_blank(text::lines(code@)[i]) {
            lemma_blank_is_no_code(text::lines(code@)[i]);
        }
    }
    lemma_prepared_from(code@, k);
}

/// The same holds of a line that assigns, calls, comments, or begins a list or a dictionary.
pub proof fn expressions_are_not_taken_for_prose(code: &str, r: String, k: int)
    requires
        call_ensures(preprocess_repl_code, (code,), r),
        0 <= k < text::lines(code@).len(),
        !text::has_prefix(text::trim_start(text::lines(code@)[k]), "```"@),
        forall|i: int|
            0 <= i < k ==> text::is_blank(#[trigger] text::lines(code@)[i]) || text::has_prefix(
                text::trim_start(text::lines(code@)[i]),
                "```"@,
            ),
        ({
            let line = text::trim(text::lines(code@)[k]);
            line.len() > 0 && (line.contains('=') || line.contains('(') || line[0] == '#'
                || line[0] == '[' || line[0] == '{')
        }),
    ensures
        text::has_prefix(r@, text::trim_end(text::lines(code@)[k])),
{
    let line = text::lines(code@)[k];
    text_laws::lemma_trim_again(line);
    assert(code_line(line));
    assert forall|i: int| 0 <= i < k implies is_fence(#[trigger] text::lines(code@)[i])
        || !code_line(text::lines(code@)[i]) by {
        if text::is_blank(text::lines(code@)[i]) {
            lemma_blank_is_no_code(text::lines(code@)[i]);
        }
    }
    lemma_prepared_from(code@, k);
}

proof fn lemma_keywords()
    ensures
        "import "@.len() > 0,
        "from "@.len() > 0,
        "def "@.len() > 0,
        "class "@.len() > 0,
        "for "@.len() > 0,
        "while "@.len() > 0,
        "if "@.len() > 0,
        "with "@.len() > 0,
        "try:"@.len() > 0,
        "print"@.len() > 0,
{
    reveal_strlit("import ");
    reveal_strlit("from ");
    reveal_strlit("def ");
    reveal_strlit("class ");
    reveal_strlit("for ");
    reveal_strlit("while ");
    reveal_strlit("if ");
    reveal_strlit("with ");
    reveal_strlit("try:");
    reveal_strlit("print");
}

/// Lines of prose in front of the code are not handed to the interpreter: lines that neither begin
/// with a statement nor hold `=` or `(`, nor begin with `#`, `[` or `{`.
pub proof fn prose_before_the_code_is_left_out(code: &str, r: String, k: int)
    requires
        call_ensures(preprocess_repl_code, (code,), r),
        0 <= k < text::lines(code@).len(),
        !text::has_prefix(text::trim_start(text::lines(code@)[k]), "```"@),
        text::trim(text::lines(code@)[k]).contains('('),
        forall|i: int|
            0 <= i < k ==> ({
                let line = text::trim(#[trigger] text::lines(code@)[i]);
                let lower = text::lower_text(line);
                &&& !line.contains('=') && !line.contains('(')
                &&& line.len() > 0 ==> line[0] != '#' && line[0] != '[' && line[0] != '{'
                &&& !text::has_prefix(lower, "import "@) && !text::has_prefix(lower, "from "@)
                &&& !text::has_prefix(lower, "def "@) && !text::has_prefix(lower, "class "@)
                &&& !text::has_prefix(lower, "for "@) && !text::has_prefix(lower, "while "@)
                &&& !text::has_prefix(lower, "if "@) && !text::has_prefix(lower, "with "@)
                &&& !text::has_prefix(lower, "try:"@) && !text::has_prefix(lower, "print"@)
            }),
    ensures
        text::has_prefix(r@, text::trim_end(text::lines(code@)[k])),
{
    let line = text::lines(code@)[k];
    text_laws::lemma_trim_again(line);
    assert(code_line(line));
    assert forall|i: int| 0 <= i < k implies is_fence(#[trigger] text::lines(code@)[i])
        || !code_line(text::lines(code@)[i]) by {
        text_laws::lemma_trim_again(text::lines(code@)[i]);
    }
    lemma_prepared_from(code@, k);
}

/// A code fence more or less changes nothing of what the interpreter is handed.
pub proof fn fences_are_left_out(
    plain: &str,
    fenced: &str,
    r: String,
    t: String,
    before: Seq<Seq<char>>,
    fence: Seq<char>,
    after: Seq<Seq<char>>,
)
    requires
        call_ensures(preprocess_repl_code, (plain,), r),
        call_ensures(preprocess_repl_code, (fenced,), t),
        text::lines(plain@) == before + after,
        text::lines(fenced@) == before + seq![fence] + after,
        text::has_prefix(text::trim_start(fence), "```"@),
    ensures
        t@ == r@,
{
    lemma_unfenced_of_both(before, after);
    lemma_unfenced_of_both(before + seq![fence], after);
    lemma_unfenced_of_both(before, seq![fence]);
    assert(seq![fence].drop_last() =~= Seq::<Seq<char>>::empty());
    assert(unfenced(seq![fence].drop_last()) =~= Seq::empty());
    assert(unfenced(before) + unfenced(seq![fence]) =~= unfenced(before));
}

proof fn lemma_trim_end_of_lines(s: Seq<char>)
    requires
        !s.contains('\r'),
    ensures
        text::trim_end(text::join(text::lines(s), "\n"@)) == text::trim_end(s),
        !text::join(text::lines(s), "\n"@).contains('\r'),
{
    reveal_strlit("\n");
    text_laws::lemma_lines_joined(s);
    let joined = text::join(text::lines(s), "\n"@);
    if joined != s {
        assert(s.drop_last() =~= joined);
        assert(s.last() == '\n');
    }
    if joined.contains('\r') {
        let k = joined.index_of('\r');
        assert(s[k] == '\r');
        assert(s.contains('\r'));
    }
}

/// Code that begins with a line of code and has no fences is handed to the interpreter as it is, but
/// for white space at its end.
pub proof fn plain_code_is_handed_on_whole(code: &str, r: String)
    requires
        call_ensures(preprocess_repl_code, (code,), r),
        !code@.contains('\r'),
        text::lines(code@).len() > 0,
        text::trim(text::lines(code@)[0]).contains('(') || text::trim(
            text::lines(code@)[0],
        ).contains('=') || text::has_prefix(
            text::lower_text(text::trim(text::lines(code@)[0])),
            "import "@,
        ) || text::has_prefix(
            text::lower_text(text::trim(text::lines(code@)[0])),
            "from "@,
        ) || text::has_prefix(text::lower_text(text::trim(text::lines(code@)[0])), "def "@),
        forall|i: int|
            0 <= i < text::lines(code@).len() ==> !text::has_prefix(
                text::trim_start(#[trigger] text::lines(code@)[i]),
                "```"@,
            ),
    ensures
        r@ == text::trim_end(code@),
{
    let lines = text::lines(code@);
    lemma_keywords();
    text_laws::lemma_trim_again(lines[0]);
    assert(code_line(lines[0]));
    assert forall|i: int| 0 <= i < lines.len() implies !is_fence(#[trigger] lines[i]) by {}
    lemma_all_unfenced(lines);
    let body = text::join(lines, "\n"@);
    lemma_trim_end_of_lines(code@);
    lemma_trim_end_of_lines(body);
    text_laws::lemma_lines_hold_no_break(code@, 0);
    text_laws::lemma_trim_without_return(lines[0]);
    let none = Seq::<Seq<char>>::empty();
    assert(lines =~= none + seq![lines[0]] + lines.skip(1));
    lemma_from_code_line(none, lines[0], lines.skip(1));
    let split = text::lines(body);
    if lines.len() >= 2 {
        text_laws::lemma_lines_of_joined(lines);
        assert(split[0] == text::strip_return(lines[0]));
    } else {
        assert(body == lines[0]);
        text::lemma_line_end(body);
        if text::line_end(body) < body.len() {
            assert(body[text::line_end(body)] == '\n');
        }
        assert(split[0] == lines[0]);
    }
    assert(first_code(split, 0) == 0);
    assert(split.skip(0) =~= split);
}

/// The turn shows what was printed and the value of the last expression word for word when they
/// fit, one behind the other; of nothing at all it shows a note.
pub proof fn short_outputs_are_shown_whole(
    stdout: String,
    repr: Option<String>,
    max: usize,
    r: String,
)
    requires
        call_ensures(format_output, (stdout, repr, max), r),
        stdout@.len() + 1 + (match repr {
            Some(v) => v@.len() as int,
            None => 0,
        }) <= max,
        max >= 60,
    ensures
        repr is None && stdout@.len() > 0 ==> r@ == stdout@,
        stdout@.len() > 0 ==> text::has_prefix(r@, stdout@),
        repr matches Some(v) ==> v@.len() > 0 ==> text::has_suffix(r@, v@) && r@.len()
            <= stdout@.len() + 1 + v@.len(),
        stdout@.len() == 0 && (repr matches Some(v) ==> v@.len() == 0) ==> text::has_text(
            r@,
            "no output"@,
        ),
{
    lemma_note();
    let all = match repr {
        Some(v) => joined(stdout@, v@),
        None => stdout@,
    };
    if let Some(v) = repr {
        lemma_joined(stdout@, v@);
    }
    assert(text::has_prefix(stdout@, stdout@)) by {
        assert(stdout@.subrange(0, stdout@.len() as int) =~= stdout@);
    }
    assert(r@ == if all.len() == 0 {
        "(no output - did you forget to print?)"@
    } else {
        all
    });
}

proof fn lemma_note()
    ensures
        "(no output - did you forget to print?)"@.len() <= 60,
        text::has_text("(no output - did you forget to print?)"@, "no output"@),
{
    reveal_strlit("(no output - did you forget to print?)");
    reveal_strlit("no output");
    let note = "(no output - did you forget to print?)"@;
    assert(note.subrange(1, 10) =~= "no output"@);
    assert(text::occurs_at(note, "no output"@, 1));
}

proof fn lemma_joined(stdout: Seq<char>, more: Seq<char>)
    ensures
        text::has_prefix(joined(stdout, more), stdout),
        text::has_suffix(joined(stdout, more), more),
        stdout.len() + more.len() <= joined(stdout, more).len() <= stdout.len() + 1 + more.len(),
{
    reveal_strlit("\n");
    if stdout.len() == 0 {
        assert(more.subrange(0, 0) =~= stdout);
        assert(more.subrange(0, more.len() as int) =~= more);
    } else {
        text_laws::lemma_ends(stdout, more);
        text_laws::lemma_ends(stdout + "\n"@, more);
        text_laws::lemma_grouped(stdout, "\n"@, more);
        text_laws::lemma_ends(stdout, "\n"@ + more);
    }
}

/// A failed run shows what it printed before it failed, then why it failed, as far as that fits.
pub proof fn failures_are_shown_to_the_model(
    code: &PreparedCode,
    outcome: &RunOutcome,
    max: usize,
    message: String,
)
    requires
        call_ensures(
            after_first_run,
            (code, outcome, max),
            ExecStep::Done(Err::<String, String>(message)),
        ),
        outcome is Failed,
        text::or_text(outcome->Failed_stdout, Seq::empty()).len() + 1 + (
        match outcome->Failed_traceback {
            Some(t) => t@.len(),
            None => outcome->Failed_message@.len(),
        }) <= max,
    ensures
        outcome->Failed_traceback matches Some(t) ==> text::has_suffix(message@, t@),
        outcome->Failed_traceback is None ==> text::has_suffix(
            message@,
            outcome->Failed_message@,
        ),
        outcome->Failed_stdout matches Some(s) ==> text::has_prefix(message@, s@),
{
    reveal_strlit("\n");
    let out = text::or_text(outcome->Failed_stdout, Seq::empty());
    let why = match outcome->Failed_traceback {
        Some(t) => t@,
        None => outcome->Failed_message@,
    };
    lemma_joined(out, why);
    assert(message@ == joined(out, why));
}

/// A failure that is no unclosed string literal of a submission is final, and code that ran is not
/// run again.
pub proof fn only_unclosed_submissions_run_again(
    code: &PreparedCode,
    outcome: &RunOutcome,
    max: usize,
    again: String,
    suppress_output: bool,
)
    requires
        call_ensures(
            after_first_run,
            (code, outcome, max),
            ExecStep::Rerun { code: again, suppress_output },
        ),
    ensures
        outcome is Failed,
        text::has_text(code.code@, "SUBMIT("@),
        outcome->Failed_traceback is Some,
        text::has_text(outcome->Failed_traceback->0@, "SyntaxError"@),
        text::has_text(outcome->Failed_traceback->0@, "string literal"@),
        text::has_prefix(again@, text::trim_end(code.code@)),
        again@ != text::trim_end(code.code@),
        suppress_output == code.suppress_output,
{
    reveal_strlit("string literal");
    reveal_strlit("unterminated triple-quoted string literal");
    reveal_strlit("unterminated string literal");
    let t = outcome->Failed_traceback->0@;
    let a = "unterminated triple-quoted string literal"@;
    let b = "unterminated string literal"@;
    let c = "string literal"@;
    assert(a.subrange(27, 41) =~= c);
    assert(text::occurs_at(a, c, 27));
    assert(b.subrange(13, 27) =~= c);
    assert(text::occurs_at(b, c, 13));
    if text::has_text(t, a) {
        text_laws::lemma_within(t, a, c);
    } else {
        text_laws::lemma_within(t, b, c);
    }
    lemma_closing_appends(code.code@);
}

proof fn lemma_closing_appends(code: Seq<char>)
    ensures
        text::has_prefix(submit_closed(code), text::trim_end(code)),
{
    let trimmed = text::trim_end(code);
    let first = close_quote(trimmed, "\"\"\""@);
    let second = close_quote(first, "'''"@);
    let third = close_parens(second);
    assert(third.subrange(0, trimmed.len() as int) =~= trimmed);
}

/// An output that is too long is shown with its beginning and its end, in that order, and with as
/// many characters of it as may be shown.
pub proof fn long_outputs_keep_both_ends(text: &str, max_chars: usize, r: String)
    requires
        max_chars > 0,
        text@.len() > max_chars,
        call_ensures(truncate_capture_output, (text, max_chars), r),
    ensures
        text::has_prefix(r@, text@.take((max_chars / 2) as int)),
        text::occurs_at(
            r@,
            text@.skip(text@.len() - (max_chars - max_chars / 2)),
            max_chars / 2 + 1,
        ),
{
    reveal_strlit("\n");
    let head = text@.take((max_chars / 2) as int);
    let end = text@.skip(text@.len() - (max_chars - max_chars / 2));
    assert(r@.subrange(0, head.len() as int) =~= head);
    let from = (head.len() + 1) as int;
    assert(r@.subrange(from, from + end.len()) =~= end);
}

proof fn lemma_added_behind(s: Seq<char>, t: Seq<char>, p: Seq<char>)
    requires
        text::has_prefix(s, p),
    ensures
        text::has_prefix(s + t, p),
{
    assert((s + t).subrange(0, p.len() as int) =~= s.subrange(0, p.len() as int));
}

/// A repair adds behind the code what closes it, and changes nothing of the code itself.
pub proof fn repairs_only_add_behind_the_code(code: &str, s: String)
    requires
        call_ensures(repair_submit_code, (code,), Some(s)),
    ensures
        text::has_text(code@, "SUBMIT("@),
        text::has_prefix(s@, text::trim_end(code@)),
        s@.len() > text::trim_end(code@).len(),
        forall|i: int|
            text::trim_end(code@).len() <= i < s@.len() ==> #[trigger] s@[i] == '"' || s@[i] == '\''
                || s@[i] == ')',
{
    reveal_strlit("\"\"\"");
    reveal_strlit("'''");
    let start = text::trim_end(code@);
    let one = close_quote(start, "\"\"\""@);
    let two = close_quote(one, "'''"@);
    assert(start.subrange(0, start.len() as int) =~= start);
    lemma_added_behind(start, "\"\"\""@, start);
    lemma_added_behind(one, "'''"@, start);
    let at = text::last_index(two, "SUBMIT("@, two.len() as int);
    let open = text::count_char(two.skip(at), '(') as int;
    let closed = text::count_char(two.skip(at), ')') as int;
    if at >= 0 && open > closed {
        lemma_added_behind(two, text::repeat(')', (open - closed) as nat), start);
    }
    if s@.len() == start.len() {
        assert(s@ =~= s@.subrange(0, start.len() as int));
    }
}

/// Code that ends in a semicolon runs without its value being shown, and other code with it.
pub proof fn semicolons_hide_the_value(code: &str, r: PreparedCode)
    requires
        call_ensures(prepare_repl_code, (code,), r),
    ensures
        r.suppress_output <==> text::has_suffix(text::trim_end(r.code@), ";"@),
{
}

/// The result of a repaired run counts where that run ended well, and the first failure where it
/// did not.
pub proof fn repaired_runs_count_where_they_end_well(
    first: &RunOutcome,
    repaired: &RunOutcome,
    max_output_chars: usize,
    r: Result<String, String>,
    output: Option<String>,
)
    requires
        call_ensures(after_repaired_run, (first, repaired, max_output_chars), r),
        call_ensures(output_of_run, (repaired, max_output_chars), output),
    ensures
        output is None <==> *repaired is Failed,
        r is Ok <==> !(*repaired is Failed),
        r matches Ok(s) ==> output matches Some(o) && s@ == o@,
        (r matches Err(e) && (*first matches RunOutcome::Failed {
            stdout: None,
            traceback: Some(t),
            ..
        } && t@.len() <= max_output_chars && max_output_chars > 0)) ==> r->Err_0@
            == first->Failed_traceback->0@,
{
}

} // verus!
