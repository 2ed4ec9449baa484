//! How a call of a predictor ends: what its caller gets, and what is recorded of it.

use indexmap::IndexMap;
use vstd::prelude::*;

use crate::chat::{Chat, LmError, Message, ParseError, PredictError};
use crate::json::JsonMap;
use crate::modules::rlm::metadata;
use crate::modules::rlm::metadata::{
    get_meta, insert_meta, no_metas, CallMetadata, FieldMeta, FieldMetaView, ToolCall,
};
use crate::text;
use crate::trace::{LmUsage, SpanError, SpanEvent};

verus! {

/// The names of an output field: the one in the code, the one that a model reads, and the path to
/// it. Its canonical name is the end of the path.
#[derive(Debug)]
pub struct FieldKey {
    pub rust_name: String,
    pub lm_name: String,
    pub path: Vec<String>,
}

pub open spec fn canonical_name(f: FieldKey) -> Seq<char> {
    if f.path@.len() > 0 {
        f.path@.last()@
    } else {
        f.lm_name@
    }
}

impl FieldKey {
    pub fn canonical(&self) -> (r: &str)
        ensures
            r@ == canonical_name(*self),
    {
        let n = self.path.len();
        if n > 0 {
            self.path[n - 1].as_str()
        } else {
            self.lm_name.as_str()
        }
    }
}

/// The name in the code of the field with a canonical name, from the field at `i` on.
pub open spec fn rust_name(fields: Seq<FieldKey>, canonical: Seq<char>, i: int) -> Seq<char>
    decreases fields.len() - i,
{
    if i < 0 || i >= fields.len() {
        canonical
    } else if canonical_name(fields[i]) == canonical {
        fields[i].rust_name@
    } else {
        rust_name(fields, canonical, i + 1)
    }
}

/// The name in the code of the field with a canonical name. Another name stands for itself.
pub fn output_rust_name(fields: &Vec<FieldKey>, canonical: &str) -> (r: String)
    ensures
        r@ == rust_name(fields@, canonical@, 0),
{
    let mut i: usize = 0;
    while i < fields.len()
        invariant
            i <= fields@.len(),
            rust_name(fields@, canonical@, 0) == rust_name(fields@, canonical@, i as int),
        decreases fields@.len() - i,
    {
        if text::text_eq(fields[i].canonical(), canonical) {
            return fields[i].rust_name.clone();
        }
        i += 1;
    }
    canonical.to_owned()
}

/// The second error is the first with the names of fields in the code.
pub open spec fn is_renamed(fields: Seq<FieldKey>, a: ParseError, b: ParseError) -> bool
    decreases a,
{
    match a {
        ParseError::MissingField { field, raw_response } => b matches ParseError::MissingField {
            field: f,
            raw_response: t,
        } && f@ == rust_name(fields, field@, 0) && t == raw_response,
        ParseError::ExtractionFailed { field, raw_response, reason } => b matches
            ParseError::ExtractionFailed { field: f, raw_response: t, reason: why } && f@
            == rust_name(fields, field@, 0) && t == raw_response && why == reason,
        ParseError::CoercionFailed { field, expected_type, raw_text, reason } => b matches
            ParseError::CoercionFailed {
            field: f,
            expected_type: x,
            raw_text: t,
            reason: why,
        } && f@ == rust_name(fields, field@, 0) && x == expected_type && t == raw_text && why
            == reason,
        ParseError::AssertFailed { field, label, expression, value } => b matches
            ParseError::AssertFailed { field: f, label: l, expression: x, value: v } && f@
            == rust_name(fields, field@, 0) && l == label && x == expression && v == value,
        ParseError::Multiple { errors, partial } => b matches ParseError::Multiple {
            errors: e,
            partial: p,
        } && p == partial && e@.len() == errors@.len() && forall|i: int|
            0 <= i < errors@.len() ==> is_renamed(fields, #[trigger] errors@[i], e@[i]),
    }
}

/// Gives the fields of an error their names in the code.
pub fn translate_parse_error(fields: &Vec<FieldKey>, err: ParseError) -> (r: ParseError)
    ensures
        is_renamed(fields@, err, r),
    decreases err,
{
    match err {
        ParseError::MissingField { field, raw_response } => ParseError::MissingField {
            field: output_rust_name(fields, field.as_str()),
            raw_response,
        },
        ParseError::ExtractionFailed { field, raw_response, reason } =>
            ParseError::ExtractionFailed {
            field: output_rust_name(fields, field.as_str()),
            raw_response,
            reason,
        },
        ParseError::CoercionFailed { field, expected_type, raw_text, reason } =>
            ParseError::CoercionFailed {
            field: output_rust_name(fields, field.as_str()),
            expected_type,
            raw_text,
            reason,
        },
        ParseError::AssertFailed { field, label, expression, value } => ParseError::AssertFailed {
            field: output_rust_name(fields, field.as_str()),
            label,
            expression,
            value,
        },
        ParseError::Multiple { errors, partial } => {
            let ghost all = errors@;
            let mut rest = errors;
            let mut out: Vec<ParseError> = Vec::new();
            proof {
                assert(all.skip(0) =~= all);
            }
            while rest.len() > 0
                invariant
                    all == errors@,
                    err == (ParseError::Multiple { errors, partial }),
                    out@.len() + rest@.len() == all.len(),
                    rest@ == all.skip(out@.len() as int),
                    forall|i: int|
                        0 <= i < out@.len() ==> is_renamed(
                            fields@,
                            #[trigger] all[i],
                            out@[i],
                        ),
                decreases rest@.len(),
            {
                let ghost k = out@.len() as int;
                let one = rest.remove(0);
                proof {
                    assert(one == all[k]);
                    assert(rest@ =~= all.skip(k + 1));
                    assert(err->Multiple_errors@[k] == one);
                    assert(decreases_to!(err => err->Multiple_errors@[k]));
                }
                let renamed = translate_parse_error(fields, one);
                out.push(renamed);
            }
            ParseError::Multiple { errors: out, partial }
        },
    }
}

/// What is known of the first `n` fields, under their names in the code and in their order.
pub open spec fn renamed_metas(
    fields: Seq<FieldKey>,
    metas: Seq<(Seq<char>, FieldMetaView)>,
    n: nat,
) -> Seq<(Seq<char>, FieldMetaView)>
    decreases n,
{
    if n == 0 || n > fields.len() {
        Seq::empty()
    } else {
        let before = renamed_metas(fields, metas, (n - 1) as nat);
        let at = metadata::entry_index(metas, canonical_name(fields[n - 1]), 0);
        if at < metas.len() {
            metadata::with_entry(before, fields[n - 1].rust_name@, metas[at].1)
        } else {
            before
        }
    }
}

/// Gives what is known of fields their names in the code.
pub fn translate_field_meta(fields: &Vec<FieldKey>, metas: &IndexMap<String, FieldMeta>) -> (r:
    IndexMap<String, FieldMeta>)
    ensures
        metadata::field_metas(r) == renamed_metas(
            fields@,
            metadata::field_metas(*metas),
            fields@.len(),
        ),
{
    let mut out = no_metas();
    let mut i: usize = 0;
    while i < fields.len()
        invariant
            i <= fields@.len(),
            metadata::field_metas(out) == renamed_metas(
                fields@,
                metadata::field_metas(*metas),
                i as nat,
            ),
        decreases fields@.len() - i,
    {
        match get_meta(metas, fields[i].canonical()) {
            Some(meta) => insert_meta(&mut out, fields[i].rust_name.clone(), meta.clone()),
            None => {},
        }
        i += 1;
    }
    out
}

/// A failure that is neither of the provider nor of the reply.
pub fn internal_error(message: String) -> (r: PredictError)
    ensures
        r matches PredictError::Lm { source: LmError::Provider { provider, message: m } }
            && provider@ == "internal"@ && m == message,
{
    PredictError::Lm {
        source: LmError::Provider { provider: "internal".to_owned(), message },
    }
}

/// The error of an output that does not have the right type.
pub open spec fn is_untyped(e: ParseError, raw: Seq<char>, reason: Seq<char>) -> bool {
    e matches ParseError::ExtractionFailed { field, raw_response, reason: why } && field@
        == "<all>"@ && raw_response@ == raw && why@ == reason
}

fn untyped_error(raw: &str, reason: String) -> (r: ParseError)
    ensures
        is_untyped(r, raw@, reason@),
{
    ParseError::ExtractionFailed {
        field: "<all>".to_owned(),
        raw_response: raw.to_owned(),
        reason,
    }
}

/// How a run of a program fails.
#[allow(inconsistent_fields)]
#[derive(Debug)]
pub enum RunError {
    Lm { source: LmError },
    Parse { raw: String, source: Option<ParseError>, usage: LmUsage, chat: Chat },
    Replay { message: String },
    Other { message: String },
}

/// The failure of a run as that of a prediction.
pub fn map_run_error(fields: &Vec<FieldKey>, err: RunError) -> (r: PredictError)
    ensures
        match err {
            RunError::Lm { source } => r == (PredictError::Lm { source }),
            RunError::Parse { raw, source, usage, chat } => {
                &&& r matches PredictError::Parse {
                    source: s,
                    raw_response,
                    lm_usage,
                    chat: c,
                } && raw_response == raw && lm_usage == usage && c == chat && match source {
                    Some(parse) => is_renamed(fields@, parse, s),
                    None => is_untyped(
                        s,
                        raw@,
                        "response did not match the output signature"@,
                    ),
                }
            },
            RunError::Replay { message } => r == (PredictError::Replay { message }),
            RunError::Other { message } => r matches PredictError::Lm {
                source: LmError::Provider { provider, message: m },
            } && provider@ == "internal"@ && m == message,
        },
{
    match err {
        RunError::Lm { source } => PredictError::Lm { source },
        RunError::Parse { raw, source, usage, chat } => {
            let source = match source {
                Some(parse) => translate_parse_error(fields, parse),
                None => untyped_error(
                    raw.as_str(),
                    "response did not match the output signature".to_owned(),
                ),
            };
            PredictError::Parse { source, raw_response: raw, lm_usage: usage, chat }
        },
        RunError::Replay { message } => PredictError::Replay { message },
        RunError::Other { message } => internal_error(message),
    }
}

/// What one leaf of a run left.
#[derive(Debug)]
pub struct LeafOutcome {
    pub raw_response: String,
    pub usage: LmUsage,
    pub span_id: Option<usize>,
    pub field_meta: IndexMap<String, FieldMeta>,
    pub tool_calls: Vec<ToolCall>,
    pub tool_executions: Vec<String>,
}

/// What a prediction comes to, by its run: what its one leaf left, or why its output does not
/// have the right type. `leaf` is the first leaf of the run, if it has any.
pub fn predicted_from_run(
    fields: &Vec<FieldKey>,
    leaf: Option<LeafOutcome>,
    typed: Result<(), String>,
    chat: Chat,
) -> (r: Result<CallMetadata, PredictError>)
    ensures
        match typed {
            Ok(_) => r matches Ok(call) && match leaf {
                Some(l) => {
                    &&& call.raw_response == l.raw_response
                    &&& call.lm_usage == l.usage
                    &&& call.tool_calls == l.tool_calls
                    &&& call.tool_executions == l.tool_executions
                    &&& call.node_id == l.span_id
                    &&& metadata::field_metas(call.field_meta) == renamed_metas(
                        fields@,
                        metadata::field_metas(l.field_meta),
                        fields@.len(),
                    )
                },
                None => {
                    &&& call.raw_response@.len() == 0
                    &&& call.lm_usage == LmUsage::zero()
                    &&& call.tool_calls@.len() == 0
                    &&& call.tool_executions@.len() == 0
                    &&& call.node_id is None
                    &&& metadata::field_metas(call.field_meta).len() == 0
                },
            },
            Err(reason) => r matches Err(
                PredictError::Parse { source, raw_response, lm_usage, chat: c },
            ) && c == chat && match leaf {
                Some(l) => raw_response == l.raw_response && lm_usage == l.usage && is_untyped(
                    source,
                    l.raw_response@,
                    reason@,
                ),
                None => raw_response@.len() == 0 && lm_usage == LmUsage::zero() && is_untyped(
                    source,
                    Seq::empty(),
                    reason@,
                ),
            },
        },
{
    let has_leaf = leaf.is_some();
    let leaf = match leaf {
        Some(l) => l,
        None => LeafOutcome {
            raw_response: String::new(),
            usage: LmUsage::default(),
            span_id: None,
            field_meta: no_metas(),
            tool_calls: Vec::new(),
            tool_executions: Vec::new(),
        },
    };
    match typed {
        Ok(_) => {
            let field_meta = if has_leaf {
                translate_field_meta(fields, &leaf.field_meta)
            } else {
                no_metas()
            };
            Ok(
                CallMetadata {
                    raw_response: leaf.raw_response,
                    lm_usage: leaf.usage,
                    tool_calls: leaf.tool_calls,
                    tool_executions: leaf.tool_executions,
                    node_id: leaf.span_id,
                    field_meta,
                },
            )
        },
        Err(reason) => Err(
            PredictError::Parse {
                source: untyped_error(leaf.raw_response.as_str(), reason),
                raw_response: leaf.raw_response,
                lm_usage: leaf.usage,
                chat,
            },
        ),
    }
}

/// What is recorded of a call when it is over.
#[derive(Debug)]
pub struct SpanOutcome {
    pub events: Vec<SpanEvent>,
    pub raw_output: Option<String>,
    pub output: Option<JsonMap>,
    pub usage: LmUsage,
    pub error: Option<SpanError>,
}

/// A reply of a model.
#[derive(Debug)]
pub struct LmReply {
    pub raw_response: String,
    pub usage: LmUsage,
    pub chat: Chat,
    pub tool_calls: Vec<ToolCall>,
    pub tool_executions: Vec<String>,
    pub events: Vec<SpanEvent>,
}

/// How far a call came that asked the model.
#[allow(inconsistent_fields)]
#[derive(Debug)]
pub enum CallEnd {
    /// The model could not be reached.
    Failed { message: String },
    /// The reply could not be read. `message` is how the error reads with the names of the code.
    Unreadable { reply: LmReply, error: ParseError, message: String },
    /// What was read does not have the right type. `message` is how that error reads.
    Untyped { reply: LmReply, reason: String, message: String },
    /// The reply was read.
    Read { reply: LmReply, output: JsonMap, metas: IndexMap<String, FieldMeta> },
}

/// Nothing came of a call but an error of the model's side.
pub open spec fn records_failure(span: SpanOutcome, message: Seq<char>) -> bool {
    &&& span.events@.len() == 0
    &&& span.raw_output is None
    &&& span.output is None
    &&& span.usage == LmUsage::zero()
    &&& span.error matches Some(e) && e.kind@ == "lm"@ && e.message@ == message
}

/// A reply came that could not be used. It is recorded with the reason.
pub open spec fn records_unusable(span: SpanOutcome, reply: LmReply, message: Seq<char>) -> bool {
    &&& span.events == reply.events
    &&& text::opt_view(span.raw_output) == Some(reply.raw_response@)
    &&& span.output is None
    &&& span.usage == reply.usage
    &&& span.error matches Some(e) && e.kind@ == "parse"@ && e.message@ == message
}

fn failure_span(message: &str) -> (r: SpanOutcome)
    ensures
        records_failure(r, message@),
{
    SpanOutcome {
        events: Vec::new(),
        raw_output: None,
        output: None,
        usage: LmUsage::default(),
        error: Some(SpanError { kind: "lm".to_owned(), message: message.to_owned() }),
    }
}

/// Ends a call that asked the model: what its caller gets, and what is recorded of it. `model` is the name of the
/// model, and `span_id` the record's place where one is kept.
pub fn conclude_call(
    fields: &Vec<FieldKey>,
    model: &str,
    span_id: Option<usize>,
    end: CallEnd,
) -> (r: (Result<(CallMetadata, Chat), PredictError>, SpanOutcome))
    ensures
        match end {
            CallEnd::Failed { message } => {
                &&& r.0 matches Err(
                    PredictError::Lm { source: LmError::Provider { provider, message: m } },
                ) && provider@ == model@ && m == message
                &&& records_failure(r.1, message@)
            },
            CallEnd::Unreadable { reply, error, message } => {
                &&& r.0 matches Err(
                    PredictError::Parse { source, raw_response, lm_usage, chat },
                ) && is_renamed(fields@, error, source) && raw_response == reply.raw_response
                    && lm_usage == reply.usage && chat == reply.chat && records_unusable(
                    r.1,
                    reply,
                    message@,
                )
            },
            CallEnd::Untyped { reply, reason, message } => {
                &&& r.0 matches Err(
                    PredictError::Parse { source, raw_response, lm_usage, chat },
                ) && is_untyped(source, reply.raw_response@, reason@) && raw_response
                    == reply.raw_response && lm_usage == reply.usage && chat == reply.chat
                    && records_unusable(r.1, reply, message@)
            },
            CallEnd::Read { reply, output, metas } => {
                &&& r.0 matches Ok((call, chat)) && {
                    &&& chat == reply.chat
                    &&& call.raw_response == reply.raw_response
                    &&& call.lm_usage == reply.usage
                    &&& call.tool_calls == reply.tool_calls
                    &&& call.tool_executions == reply.tool_executions
                    &&& call.node_id == span_id
                    &&& metadata::field_metas(call.field_meta) == renamed_metas(
                        fields@,
                        metadata::field_metas(metas),
                        fields@.len(),
                    )
                }
                &&& r.1.events == reply.events
                &&& text::opt_view(r.1.raw_output) == Some(reply.raw_response@)
                &&& r.1.output == Some(output)
                &&& r.1.usage == reply.usage
                &&& r.1.error is None
            },
        },
{
    match end {
        CallEnd::Failed { message } => {
            let span = failure_span(message.as_str());
            (
                Err(
                    PredictError::Lm {
                        source: LmError::Provider { provider: model.to_owned(), message },
                    },
                ),
                span,
            )
        },
        CallEnd::Unreadable { reply, error, message } => {
            let source = translate_parse_error(fields, error);
            unusable(reply, source, message)
        },
        CallEnd::Untyped { reply, reason, message } => {
            let source = untyped_error(reply.raw_response.as_str(), reason);
            unusable(reply, source, message)
        },
        CallEnd::Read { reply, output, metas } => {
            let field_meta = translate_field_meta(fields, &metas);
            let span = SpanOutcome {
                events: reply.events,
                raw_output: Some(reply.raw_response.clone()),
                output: Some(output),
                usage: reply.usage,
                error: None,
            };
            let call = CallMetadata {
                raw_response: reply.raw_response,
                lm_usage: reply.usage,
                tool_calls: reply.tool_calls,
                tool_executions: reply.tool_executions,
                node_id: span_id,
                field_meta,
            };
            (Ok((call, reply.chat)), span)
        },
    }
}

fn unusable(reply: LmReply, source: ParseError, message: String) -> (r: (
    Result<(CallMetadata, Chat), PredictError>,
    SpanOutcome,
))
    ensures
        r.0 matches Err(PredictError::Parse { source: s, raw_response, lm_usage, chat }) && s
            == source && raw_response == reply.raw_response && lm_usage == reply.usage && chat
            == reply.chat,
        records_unusable(r.1, reply, message@),
{
    let span = SpanOutcome {
        events: reply.events,
        raw_output: Some(reply.raw_response.clone()),
        output: None,
        usage: reply.usage,
        error: Some(SpanError { kind: "parse".to_owned(), message }),
    };
    (
        Err(
            PredictError::Parse {
                source,
                raw_response: reply.raw_response,
                lm_usage: reply.usage,
                chat: reply.chat,
            },
        ),
        span,
    )
}

/// A message of a recorded call, and the tools that it asks for.
#[derive(Debug)]
pub struct RecordedMessage {
    pub message: Message,
    pub tool_calls: Vec<ToolCall>,
}

/// A call that was recorded, with the messages that came of it.
#[derive(Debug)]
pub struct RecordedCall {
    pub events: Vec<SpanEvent>,
    pub raw_output: Option<String>,
    pub output: JsonMap,
    pub usage: LmUsage,
    pub completion: Vec<RecordedMessage>,
}

/// The results of the first `n` events that are runs of tools.
pub open spec fn tool_results(events: Seq<SpanEvent>, n: nat) -> Seq<Seq<char>>
    decreases n,
{
    if n == 0 || n > events.len() {
        Seq::empty()
    } else {
        match events[n - 1] {
            SpanEvent::ToolRun { result, .. } => tool_results(events, (n - 1) as nat).push(
                result@,
            ),
            _ => tool_results(events, (n - 1) as nat),
        }
    }
}

/// The tools that the first `n` messages ask for.
pub open spec fn asked_tools(messages: Seq<RecordedMessage>, n: nat) -> Seq<ToolCall>
    decreases n,
{
    if n == 0 || n > messages.len() {
        Seq::empty()
    } else {
        asked_tools(messages, (n - 1) as nat) + messages[n - 1].tool_calls@
    }
}

fn tool_results_of(events: &Vec<SpanEvent>) -> (r: Vec<String>)
    ensures
        text::views(r@) == tool_results(events@, events@.len()),
{
    let mut out: Vec<String> = Vec::new();
    let mut i: usize = 0;
    proof {
        assert(text::views(out@) =~= Seq::empty());
    }
    while i < events.len()
        invariant
            i <= events@.len(),
            text::views(out@) == tool_results(events@, i as nat),
        decreases events@.len() - i,
    {
        match &events[i] {
            SpanEvent::ToolRun { result, .. } => text::push_line(&mut out, result.clone()),
            _ => {},
        }
        i += 1;
    }
    out
}

pub open spec fn spoken(messages: Seq<RecordedMessage>) -> Seq<Message> {
    Seq::new(messages.len(), |i: int| messages[i].message)
}

/// What a call ends with that is answered from its record.
pub open spec fn is_served(
    span: RecordedCall,
    chat: Chat,
    span_id: Option<usize>,
    decoded: Result<(), String>,
    result: Result<(CallMetadata, Chat), PredictError>,
    outcome: SpanOutcome,
) -> bool {
    &&& outcome.raw_output == span.raw_output
    &&& outcome.usage == span.usage
    &&& match decoded {
        Err(e) => {
            &&& result == Err::<(CallMetadata, Chat), PredictError>(
                PredictError::Replay { message: e },
            )
            &&& outcome.events@.len() == 0
            &&& outcome.output is None
            &&& outcome.error matches Some(x) && x.kind@ == "parse"@ && x.message@ == e@
        },
        Ok(_) => {
            let raw = text::or_text(span.raw_output, Seq::empty());
            &&& outcome.events == span.events
            &&& outcome.output == Some(span.output)
            &&& outcome.error is None
            &&& result matches Ok((call, talk)) && {
                &&& call.raw_response@ == raw
                &&& call.lm_usage == span.usage
                &&& call.tool_calls@ == asked_tools(span.completion@, span.completion@.len())
                &&& text::views(call.tool_executions@) == tool_results(
                    span.events@,
                    span.events@.len(),
                )
                &&& call.node_id == span_id
                &&& metadata::field_metas(call.field_meta).len() == 0
                &&& if span.completion@.len() == 0 && raw.len() > 0 {
                    &&& talk.messages@.len() == chat.messages@.len() + 1
                    &&& talk.messages@.drop_last() == chat.messages@
                    &&& talk.messages@.last().role is Assistant
                    &&& talk.messages@.last().content@ == raw
                } else {
                    talk.messages@ == chat.messages@ + spoken(span.completion@)
                }
            }
        },
    }
}

/// Answers a call from its record. The conversation grows by the recorded messages or, where none
/// were kept, by the raw reply. `decoded` says why the recorded output could not be used, if it
/// could not. No tool runs again.
pub fn serve_recorded_span(
    span: RecordedCall,
    chat: Chat,
    span_id: Option<usize>,
    decoded: Result<(), String>,
) -> (r: (Result<(CallMetadata, Chat), PredictError>, SpanOutcome))
    ensures
        is_served(span, chat, span_id, decoded, r.0, r.1),
{
    match decoded {
        Err(e) => {
            let outcome = SpanOutcome {
                events: Vec::new(),
                raw_output: span.raw_output,
                output: None,
                usage: span.usage,
                error: Some(SpanError { kind: "parse".to_owned(), message: e.clone() }),
            };
            (Err(PredictError::Replay { message: e }), outcome)
        },
        Ok(_) => {
            let raw_response = match &span.raw_output {
                Some(t) => t.clone(),
                None => String::new(),
            };
            let tool_executions = tool_results_of(&span.events);
            let ghost recorded = span.completion@;
            let ghost start = chat.messages@;
            let mut talk = chat;
            let mut tool_calls: Vec<ToolCall> = Vec::new();
            let mut rest = span.completion;
            if rest.len() == 0 && !raw_response.as_str().is_empty() {
                talk.push_message(Message::assistant(raw_response.as_str()));
                proof {
                    assert(talk.messages@.drop_last() =~= start);
                }
            } else {
                let ghost mut k: int = 0;
                proof {
                    assert(recorded.skip(0) =~= recorded);
                    assert(talk.messages@ =~= start + spoken(recorded).take(0));
                }
                while rest.len() > 0
                    invariant
                        0 <= k <= recorded.len(),
                        rest@ == recorded.skip(k),
                        talk.messages@ == start + spoken(recorded).take(k),
                        tool_calls@ == asked_tools(recorded, k as nat),
                    decreases rest@.len(),
                {
                    let one = rest.remove(0);
                    let mut calls = one.tool_calls;
                    tool_calls.append(&mut calls);
                    talk.push_message(one.message);
                    proof {
                        assert(one == recorded[k]);
                        assert(rest@ =~= recorded.skip(k + 1));
                        assert(talk.messages@ =~= start + spoken(recorded).take(k + 1));
                        k = k + 1;
                    }
                }
                proof {
                    assert(k == recorded.len());
                    assert(spoken(recorded).take(k) =~= spoken(recorded));
                }
            }
            let outcome = SpanOutcome {
                events: span.events,
                raw_output: span.raw_output,
                output: Some(span.output),
                usage: span.usage,
                error: None,
            };
            let call = CallMetadata {
                raw_response,
                lm_usage: span.usage,
                tool_calls,
                tool_executions,
                node_id: span_id,
                field_meta: no_metas(),
            };
            (Ok((call, talk)), outcome)
        },
    }
}

/// What is recorded of a call before it is made. The messages that every prompt begins with stand
/// apart from the rest.
#[derive(Debug)]
pub struct SpanRequest {
    pub component: String,
    pub prefix: Option<Vec<Message>>,
    pub suffix: Vec<Message>,
    pub input: Option<JsonMap>,
    pub model: String,
}

fn messages_between(messages: &Vec<Message>, from: usize, to: usize) -> (r: Vec<Message>)
    requires
        from <= to <= messages@.len(),
    ensures
        r@ == messages@.subrange(from as int, to as int),
{
    let mut out: Vec<Message> = Vec::new();
    let mut i = from;
    while i < to
        invariant
            from <= i <= to <= messages@.len(),
            out@ == messages@.subrange(from as int, i as int),
        decreases to - i,
    {
        out.push(messages[i].clone());
        i += 1;
        proof {
            assert(out@ =~= messages@.subrange(from as int, i as int));
        }
    }
    out
}

/// Opens the record of a call, before the model is asked. The first `prefix_len` messages are those
/// that every prompt of the predictor begins with.
pub fn span_request(
    component: &str,
    chat: &Chat,
    prefix_len: usize,
    input: Option<JsonMap>,
    model: &str,
) -> (r: SpanRequest)
    requires
        prefix_len <= chat.messages@.len(),
    ensures
        r.component@ == component@,
        r.model@ == model@,
        r.input == input,
        match r.prefix {
            Some(p) => prefix_len > 0 && p@ == chat.messages@.take(prefix_len as int),
            None => prefix_len == 0,
        },
        r.suffix@ == chat.messages@.skip(prefix_len as int),
{
    let prefix = if prefix_len > 0 {
        Some(messages_between(&chat.messages, 0, prefix_len))
    } else {
        None
    };
    let suffix = messages_between(&chat.messages, prefix_len, chat.messages.len());
    SpanRequest {
        component: component.to_owned(),
        prefix,
        suffix,
        input,
        model: model.to_owned(),
    }
}

/// What a replay makes of a call. `decoded` is as in `serve_recorded_span`.
#[derive(Debug)]
pub enum ReplayDirective {
    Serve { span: RecordedCall, decoded: Result<(), String> },
    Refuse { message: String },
    Live,
}

/// What follows the look into a replay: the call is over, or the model is asked.
#[derive(Debug)]
pub enum CallStep {
    Over { result: Result<(CallMetadata, Chat), PredictError>, outcome: SpanOutcome },
    Ask { chat: Chat },
}

/// Goes on with a call after the look into a replay. The model is asked only where there is no
/// replay, or where the replay lets the call through.
pub fn after_replay(directive: Option<ReplayDirective>, chat: Chat, span_id: Option<usize>) -> (r:
    CallStep)
    ensures
        match directive {
            Some(ReplayDirective::Serve { span, decoded }) => r matches CallStep::Over {
                result,
                outcome,
            } && is_served(span, chat, span_id, decoded, result, outcome),
            Some(ReplayDirective::Refuse { message }) => r matches CallStep::Over {
                result,
                outcome,
            } && result == Err::<(CallMetadata, Chat), PredictError>(
                PredictError::Replay { message },
            ) && records_failure(outcome, message@),
            Some(ReplayDirective::Live) | None => r == (CallStep::Ask { chat }),
        },
{
    match directive {
        Some(ReplayDirective::Serve { span, decoded }) => {
            let (result, outcome) = serve_recorded_span(span, chat, span_id, decoded);
            CallStep::Over { result, outcome }
        },
        Some(ReplayDirective::Refuse { message }) => {
            let outcome = failure_span(message.as_str());
            CallStep::Over { result: Err(PredictError::Replay { message }), outcome }
        },
        Some(ReplayDirective::Live) | None => CallStep::Ask { chat },
    }
}

proof fn lemma_rust_name(fields: Seq<FieldKey>, canonical: Seq<char>, i: int, k: int)
    requires
        0 <= i <= k < fields.len(),
        canonical_name(fields[k]) == canonical,
        forall|j: int| i <= j < k ==> canonical_name(#[trigger] fields[j]) != canonical,
    ensures
        rust_name(fields, canonical, i) == fields[k].rust_name@,
    decreases k - i,
{
    if i < k {
        assert(canonical_name(fields[i]) != canonical);
        lemma_rust_name(fields, canonical, i + 1, k);
    }
}

proof fn lemma_unknown_name(fields: Seq<FieldKey>, canonical: Seq<char>, i: int)
    requires
        0 <= i <= fields.len(),
        forall|j: int| i <= j < fields.len() ==> canonical_name(#[trigger] fields[j]) != canonical,
    ensures
        rust_name(fields, canonical, i) == canonical,
    decreases fields.len() - i,
{
    if i < fields.len() {
        assert(canonical_name(fields[i]) != canonical);
        lemma_unknown_name(fields, canonical, i + 1);
    }
}

/// A field goes by the last part of its path, or by the model's name where it has none.
pub proof fn fields_go_by_the_end_of_their_path(field: &FieldKey, r: &str)
    requires
        call_ensures(FieldKey::canonical, (field,), r),
    ensures
        field.path@.len() > 0 ==> r@ == field.path@.last()@,
        field.path@.len() == 0 ==> r@ == field.lm_name@,
{
}

/// An error of a field names it as the code does, and keeps what was said by the model.
pub proof fn missing_fields_are_named_as_in_the_code(
    fields: &Vec<FieldKey>,
    field: String,
    raw_response: String,
    r: ParseError,
    k: int,
)
    requires
        call_ensures(
            translate_parse_error,
            (fields, ParseError::MissingField { field, raw_response }),
            r,
        ),
        0 <= k < fields@.len(),
        fields@[k].path@.len() > 0,
        fields@[k].path@.last()@ == field@,
        forall|j: int|
            0 <= j < k ==> (#[trigger] fields@[j]).path@.len() > 0 && fields@[j].path@.last()@
                != field@,
    ensures
        r is MissingField,
        r->MissingField_field@ == fields@[k].rust_name@,
        r->MissingField_raw_response == raw_response,
{
    assert forall|j: int| 0 <= j < k implies canonical_name(#[trigger] fields@[j]) != field@ by {
        assert(fields@[j].path@.len() > 0);
    }
    lemma_rust_name(fields@, field@, 0, k);
}

/// A name that is no field's stands for itself in every kind of error, and so does all the rest.
pub proof fn other_names_stand_for_themselves(
    fields: &Vec<FieldKey>,
    field: String,
    expected_type: String,
    raw_text: String,
    reason: String,
    r: ParseError,
)
    requires
        call_ensures(
            translate_parse_error,
            (fields, ParseError::CoercionFailed { field, expected_type, raw_text, reason }),
            r,
        ),
        forall|j: int|
            0 <= j < fields@.len() ==> canonical_name(#[trigger] fields@[j]) != field@,
    ensures
        r is CoercionFailed,
        r->CoercionFailed_field@ == field@,
        r->expected_type == expected_type,
        r->raw_text == raw_text,
        r->CoercionFailed_reason == reason,
{
    lemma_unknown_name(fields@, field@, 0);
}

/// A reply that was read is handed to the caller and recorded whole, without an error.
pub proof fn replies_that_were_read_are_handed_on(
    fields: &Vec<FieldKey>,
    model: &str,
    span_id: Option<usize>,
    reply: LmReply,
    output: JsonMap,
    metas: IndexMap<String, FieldMeta>,
    r: (Result<(CallMetadata, Chat), PredictError>, SpanOutcome),
)
    requires
        call_ensures(
            conclude_call,
            (fields, model, span_id, CallEnd::Read { reply, output, metas }),
            r,
        ),
    ensures
        r.0 is Ok,
        r.0->Ok_0.0.raw_response == reply.raw_response,
        r.0->Ok_0.0.lm_usage == reply.usage,
        r.0->Ok_0.0.tool_calls == reply.tool_calls,
        r.0->Ok_0.0.tool_executions == reply.tool_executions,
        r.0->Ok_0.0.node_id == span_id,
        r.0->Ok_0.1 == reply.chat,
        r.1.error is None,
        r.1.output == Some(output),
        r.1.events == reply.events,
        r.1.usage == reply.usage,
        r.1.raw_output is Some,
        r.1.raw_output->0@ == reply.raw_response@,
{
}

/// A call that failed is an error for its caller and in its record; a record without an error
/// is that of a reply that was read.
pub proof fn failed_calls_are_recorded_as_such(
    fields: &Vec<FieldKey>,
    model: &str,
    span_id: Option<usize>,
    end: CallEnd,
    r: (Result<(CallMetadata, Chat), PredictError>, SpanOutcome),
)
    requires
        call_ensures(conclude_call, (fields, model, span_id, end), r),
    ensures
        r.0 is Ok <==> end is Read,
        r.1.error is None <==> end is Read,
        r.1.output is Some <==> end is Read,
        end matches CallEnd::Failed { message } ==> r.1.error->0.message@ == message@
            && r.1.error->0.kind@ == "lm"@ && r.0->Err_0 is Lm,
        end matches CallEnd::Unreadable { reply, error, message } ==> r.1.error->0.message@
            == message@ && r.1.error->0.kind@ == "parse"@ && r.1.usage == reply.usage
            && r.1.raw_output is Some && r.1.raw_output->0@ == reply.raw_response@
            && r.0->Err_0 is Parse,
        end matches CallEnd::Untyped { reply, reason, message } ==> r.1.error->0.message@
            == message@ && r.1.error->0.kind@ == "parse"@ && r.1.usage == reply.usage
            && r.1.raw_output is Some && r.1.raw_output->0@ == reply.raw_response@
            && r.0->Err_0 is Parse,
{
}

proof fn lemma_tool_result(events: Seq<SpanEvent>, n: nat, i: int) -> (k: int)
    requires
        0 <= i < n <= events.len(),
        events[i] is ToolRun,
    ensures
        0 <= k < tool_results(events, n).len(),
        tool_results(events, n)[k] == events[i]->result@,
        tool_results(events, n).take(k) == tool_results(events, i as nat),
    decreases n,
{
    let before = tool_results(events, (n - 1) as nat);
    if i == n - 1 {
        assert(tool_results(events, n).take(before.len() as int) =~= before);
        before.len() as int
    } else {
        let k = lemma_tool_result(events, (n - 1) as nat, i);
        assert(tool_results(events, n).take(k) =~= before.take(k));
        k
    }
}

proof fn lemma_asked_tool(messages: Seq<RecordedMessage>, n: nat, i: int, j: int) -> (k: int)
    requires
        0 <= i < n <= messages.len(),
        0 <= j < messages[i].tool_calls@.len(),
    ensures
        0 <= k < asked_tools(messages, n).len(),
        asked_tools(messages, n)[k] == messages[i].tool_calls@[j],
    decreases n,
{
    let before = asked_tools(messages, (n - 1) as nat);
    if i == n - 1 {
        before.len() + j
    } else {
        lemma_asked_tool(messages, (n - 1) as nat, i, j)
    }
}

/// A call that is answered from its record comes to what it came to: the same output and raw
/// reply, every run of a tool with its result in order, every tool that was asked for, and the
/// recorded messages behind those of the conversation.
pub proof fn recorded_calls_are_answered_as_they_were(
    span: RecordedCall,
    chat: Chat,
    span_id: Option<usize>,
    r: (Result<(CallMetadata, Chat), PredictError>, SpanOutcome),
    a: int,
    b: int,
    c: int,
    d: int,
)
    requires
        call_ensures(
            serve_recorded_span,
            (span, chat, span_id, Ok::<(), String>(())),
            r,
        ),
    ensures
        r.0 is Ok,
        r.1.error is None,
        r.1.output == Some(span.output),
        r.1.raw_output == span.raw_output,
        r.1.usage == span.usage,
        r.1.events == span.events,
        r.0->Ok_0.0.lm_usage == span.usage,
        span.raw_output is Some ==> r.0->Ok_0.0.raw_response@ == span.raw_output->0@,
        0 <= a < b < span.events@.len() && span.events@[a] is ToolRun && span.events@[b] is ToolRun
            ==> exists|x: int, y: int|
            0 <= x < y < r.0->Ok_0.0.tool_executions@.len() && (
            #[trigger] r.0->Ok_0.0.tool_executions@[x])@ == span.events@[a]->result@ && (
            #[trigger] r.0->Ok_0.0.tool_executions@[y])@ == span.events@[b]->result@,
        0 <= c < span.completion@.len() && 0 <= d < span.completion@[c].tool_calls@.len()
            ==> r.0->Ok_0.0.tool_calls@.contains(span.completion@[c].tool_calls@[d]),
        r.0->Ok_0.1.messages@.take(chat.messages@.len() as int) == chat.messages@,
        0 <= c < span.completion@.len() ==> r.0->Ok_0.1.messages@[chat.messages@.len() + c]
            == span.completion@[c].message,
{
    let call = r.0->Ok_0.0;
    let talk = r.0->Ok_0.1.messages@;
    assert(talk.take(chat.messages@.len() as int) =~= chat.messages@);
    if 0 <= a < b < span.events@.len() && span.events@[a] is ToolRun && span.events@[b] is ToolRun {
        let all = tool_results(span.events@, span.events@.len());
        let x = lemma_tool_result(span.events@, span.events@.len(), a);
        let y = lemma_tool_result(span.events@, span.events@.len(), b);
        let z = lemma_tool_result(span.events@, b as nat, a);
        assert(all.take(y).len() > z);
        assert(all.take(x).len() == x && all.take(y).len() == y);
        assert(tool_results(span.events@, b as nat).take(z).len() == z);
        assert(x == z);
        assert(text::views(call.tool_executions@) == all);
        assert(text::views(call.tool_executions@).len() == call.tool_executions@.len());
        assert(call.tool_executions@[x]@ == all[x]);
        assert(call.tool_executions@[y]@ == all[y]);
    }
    if 0 <= c < span.completion@.len() && 0 <= d < span.completion@[c].tool_calls@.len() {
        let k = lemma_asked_tool(span.completion@, span.completion@.len(), c, d);
        assert(call.tool_calls@[k] == span.completion@[c].tool_calls@[d]);
    }
}

/// The model is asked exactly where nothing is replayed, with the conversation as it is.
pub proof fn replays_do_not_ask_the_model(
    directive: Option<ReplayDirective>,
    chat: Chat,
    span_id: Option<usize>,
    r: CallStep,
)
    requires
        call_ensures(after_replay, (directive, chat, span_id), r),
    ensures
        r is Ask <==> (directive is None || directive->0 is Live),
        r is Ask ==> r->chat == chat,
        directive matches Some(ReplayDirective::Refuse { message }) ==> r->result is Err
            && r->result->Err_0 is Replay && r->outcome.error is Some,
{
}

/// The record of a call holds every message of the conversation, in order.
pub proof fn requests_are_recorded_whole(
    component: &str,
    chat: &Chat,
    prefix_len: usize,
    input: Option<JsonMap>,
    model: &str,
    r: SpanRequest,
)
    requires
        prefix_len <= chat.messages@.len(),
        call_ensures(span_request, (component, chat, prefix_len, input, model), r),
    ensures
        (match r.prefix {
            Some(p) => p@,
            None => Seq::empty(),
        }) + r.suffix@ == chat.messages@,
        r.prefix is Some <==> prefix_len > 0,
        r.input == input,
        r.component@ == component@,
        r.model@ == model@,
{
    let p = match r.prefix {
        Some(p) => p@,
        None => Seq::empty(),
    };
    assert(p + r.suffix@ =~= chat.messages@);
}

proof fn lemma_entry_index(entries: Seq<(Seq<char>, FieldMetaView)>, name: Seq<char>, from: int)
    requires
        0 <= from <= entries.len(),
    ensures
        from <= metadata::entry_index(entries, name, from) <= entries.len(),
        metadata::entry_index(entries, name, from) < entries.len()
            ==> entries[metadata::entry_index(entries, name, from)].0 == name,
        forall|i: int|
            from <= i < metadata::entry_index(entries, name, from) ==> (#[trigger] entries[i]).0
                != name,
    decreases entries.len() - from,
{
    if from < entries.len() && entries[from].0 != name {
        lemma_entry_index(entries, name, from + 1);
    }
}

proof fn lemma_renamed(
    fields: Seq<FieldKey>,
    metas: Seq<(Seq<char>, FieldMetaView)>,
    n: nat,
    k: int,
    m: int,
)
    requires
        0 <= k < n <= fields.len(),
        0 <= m < metas.len(),
        metas[m].0 == canonical_name(fields[k]),
        forall|j: int| 0 <= j < m ==> (#[trigger] metas[j]).0 != metas[m].0,
        forall|j: int|
            0 <= j < fields.len() && j != k ==> (#[trigger] fields[j]).rust_name@
                != fields[k].rust_name@,
    ensures
        renamed_metas(fields, metas, n).contains((fields[k].rust_name@, metas[m].1)),
    decreases n,
{
    let before = renamed_metas(fields, metas, (n - 1) as nat);
    let now = renamed_metas(fields, metas, n);
    let name = fields[n - 1].rust_name@;
    lemma_entry_index(before, name, 0);
    lemma_entry_index(metas, canonical_name(fields[n - 1]), 0);
    let at = metadata::entry_index(metas, canonical_name(fields[n - 1]), 0);
    let e = metadata::entry_index(before, name, 0);
    if k == n - 1 {
        if at < m {
            assert(metas[at].0 != metas[m].0);
        }
        if m < at {
            assert(metas[m].0 != canonical_name(fields[n - 1]));
        }
        assert(now[e] == (fields[k].rust_name@, metas[m].1));
    } else {
        lemma_renamed(fields, metas, (n - 1) as nat, k, m);
        let want = (fields[k].rust_name@, metas[m].1);
        let i = before.index_of(want);
        assert(fields[n - 1].rust_name@ != fields[k].rust_name@);
        if at < metas.len() {
            assert(i != e);
            assert(now[i] == want);
        }
    }
}

/// What is known of a field is kept under its name in the code.
pub proof fn what_is_known_of_a_field_is_kept(
    fields: &Vec<FieldKey>,
    metas: &IndexMap<String, FieldMeta>,
    r: IndexMap<String, FieldMeta>,
    k: int,
    m: int,
)
    requires
        call_ensures(translate_field_meta, (fields, metas), r),
        0 <= k < fields@.len(),
        0 <= m < metadata::field_metas(*metas).len(),
        metadata::field_metas(*metas)[m].0 == canonical_name(fields@[k]),
        forall|j: int|
            0 <= j < m ==> (#[trigger] metadata::field_metas(*metas)[j]).0
                != metadata::field_metas(*metas)[m].0,
        forall|j: int|
            0 <= j < fields@.len() && j != k ==> (#[trigger] fields@[j]).rust_name@
                != fields@[k].rust_name@,
    ensures
        metadata::field_metas(r).contains(
            (fields@[k].rust_name@, metadata::field_metas(*metas)[m].1),
        ),
{
    lemma_renamed(fields@, metadata::field_metas(*metas), fields@.len(), k, m);
}

} // verus!
