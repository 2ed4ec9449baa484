//! The loop in which a model writes code, reads what it printed, and hands in an output.

use indexmap::IndexMap;
use vstd::prelude::*;

use crate::chat::{Chat, Message, PredictError};
use crate::modules::rlm::metadata;
use crate::modules::rlm::metadata::{extend_metas, CallMetadata, FieldMeta, MetadataAcc};
use crate::modules::rlm::namespace::PyShown;
use crate::modules::rlm::perception;
use crate::modules::rlm::perception::{
    build_perception_message, classify_exec_outcome, decide_turn_policy,
    format_empty_response_recovery_reason, outcome_to_raw_output,
    perception_feedback_from_outcome, task_hint_from_input, ExecOutcome, PerceptionFeedback,
    TurnDecision,
};
use crate::modules::rlm::prompt;
use crate::modules::rlm::prompt::{render_extract_instruction, task_of};
use crate::modules::rlm::runtime;
use crate::modules::rlm::runtime::{default_runtime, Runtime};
use crate::modules::rlm::submit::SubmitResultDyn;
use crate::modules::rlm::tools::LlmTools;
use crate::modules::rlm::types::SignatureSchema;
use crate::modules::rlm::values::{BamlValue, BamlView};
use crate::text;
use crate::text_laws;
use crate::trace::LmUsage;

verus! {

/// How the turns of a run are shown to the model that extracts an output from them.
pub const REPL_HISTORY_INPUT_RENDER_TEMPLATE: &'static str = r#"{% if this.entries|length == 0 %}(no executed REPL turns captured){% else %}{% for entry in this.entries %}=== Turn {{ entry.turn }} ===
Code:
{{ entry.code }}

Output:
{% if entry.output %}{{ entry.output }}{% else %}<empty>{% endif %}{% if not loop.last %}

{% endif %}{% endfor %}{% endif %}"#;

/// How an input is shown: as its type is, or by a template.
#[derive(Clone, Copy, Debug)]
pub enum InputRenderSpec {
    Default,
    Jinja(&'static str),
}

/// An input of a signature, and how it is shown.
#[derive(Debug)]
pub struct FieldMetadataSpec {
    pub rust_name: &'static str,
    pub input_render: InputRenderSpec,
}

/// The inputs of the model that extracts an output: the variables and the turns.
pub fn extract_input_field_metadata() -> (r: Vec<FieldMetadataSpec>)
    ensures
        r@.len() == 2,
        r@[0].rust_name@ == "variables_info"@,
        r@[0].input_render is Default,
        r@[1].rust_name@ == "repl_history"@,
        r@[1].input_render matches InputRenderSpec::Jinja(t) && t@
            == REPL_HISTORY_INPUT_RENDER_TEMPLATE@,
{
    let mut out: Vec<FieldMetadataSpec> = Vec::new();
    out.push(
        FieldMetadataSpec { rust_name: "variables_info", input_render: InputRenderSpec::Default },
    );
    out.push(
        FieldMetadataSpec {
            rust_name: "repl_history",
            input_render: InputRenderSpec::Jinja(REPL_HISTORY_INPUT_RENDER_TEMPLATE),
        },
    );
    out
}

/// A turn whose code was run.
#[derive(Debug)]
pub struct REPLEntry {
    pub turn: u32,
    pub code: String,
    pub output: String,
}

/// The limits of a run.
#[derive(Clone, Copy, Debug, PartialEq, Eq, Structural)]
pub struct RlmConfig {
    pub max_iterations: usize,
    pub max_llm_calls: usize,
    pub max_output_chars: usize,
    pub enable_extraction_fallback: bool,
}

impl RlmConfig {
    /// The limits when none are chosen.
    pub open spec fn standard() -> RlmConfig {
        RlmConfig {
            max_iterations: 20,
            max_llm_calls: 50,
            max_output_chars: 100_000,
            enable_extraction_fallback: true,
        }
    }
}

impl Default for RlmConfig {
    fn default() -> (r: Self)
        ensures
            r == RlmConfig::standard(),
    {
        RlmConfig {
            max_iterations: 20,
            max_llm_calls: 50,
            max_output_chars: 100_000,
            enable_extraction_fallback: true,
        }
    }
}

/// How a run fails.
#[allow(inconsistent_fields)]
#[derive(Debug)]
pub enum RlmError {
    Configuration { message: String },
    ActionPredict { source: PredictError },
    PythonExec { message: String },
    ExtractFallback { source: PredictError },
    MaxIterationsReached { max: usize },
    Invariant { message: String },
}

impl RlmError {
    pub open spec fn text(&self) -> Seq<char> {
        match self {
            RlmError::Configuration { message } => "configuration error: "@ + message@,
            RlmError::ActionPredict { .. } => "action predict failed"@,
            RlmError::PythonExec { message } => "python execution failed: "@ + message@,
            RlmError::ExtractFallback { .. } => "extraction fallback failed"@,
            RlmError::MaxIterationsReached { max } => "max iterations reached ("@ + text::decimal(
                *max as nat,
            ) + ")"@,
            RlmError::Invariant { message } => "internal invariant violated: "@ + message@,
        }
    }

    /// The text of the error.
    pub fn message(&self) -> (r: String)
        ensures
            r@ == self.text(),
    {
        match self {
            RlmError::Configuration { message } => {
                let mut out = "configuration error: ".to_owned();
                out.append(message.as_str());
                out
            },
            RlmError::ActionPredict { .. } => "action predict failed".to_owned(),
            RlmError::PythonExec { message } => {
                let mut out = "python execution failed: ".to_owned();
                out.append(message.as_str());
                out
            },
            RlmError::ExtractFallback { .. } => "extraction fallback failed".to_owned(),
            RlmError::MaxIterationsReached { max } => {
                let mut out = "max iterations reached (".to_owned();
                text::push_decimal(&mut out, *max as u64);
                out.append(")");
                out
            },
            RlmError::Invariant { message } => {
                let mut out = "internal invariant violated: ".to_owned();
                out.append(message.as_str());
                out
            },
        }
    }

    /// The error as one of a prediction: a failed prediction stands for itself.
    pub fn into_predict_error(self) -> (r: PredictError)
        ensures
            match self {
                RlmError::ActionPredict { source } => r == source,
                RlmError::ExtractFallback { source } => r == source,
                _ => r matches PredictError::Module { module, message } && module@ == "Rlm"@
                    && message@ == self.text(),
            },
    {
        match self {
            RlmError::ActionPredict { source } => source,
            RlmError::ExtractFallback { source } => source,
            other => PredictError::Module { module: "Rlm".to_owned(), message: other.message() },
        }
    }
}

fn configuration_error(message: &str) -> (r: RlmError)
    ensures
        r matches RlmError::Configuration { message: m } && m@ == message@,
{
    RlmError::Configuration { message: message.to_owned() }
}

/// Settings of a module that are collected before it is built.
#[derive(Debug)]
pub struct RlmBuilder {
    pub config: RlmConfig,
    pub instruction_override: Option<String>,
    pub runtime: Option<Runtime>,
}

impl RlmBuilder {
    pub fn new() -> (r: Self)
        ensures
            r.config == RlmConfig::standard(),
            r.instruction_override is None,
            r.runtime is None,
    {
        RlmBuilder { config: RlmConfig::default(), instruction_override: None, runtime: None }
    }

    pub fn max_iterations(self, max_iterations: usize) -> (r: Self)
        ensures
            r == (RlmBuilder { config: RlmConfig { max_iterations, ..self.config }, ..self }),
    {
        RlmBuilder { config: RlmConfig { max_iterations, ..self.config }, ..self }
    }

    pub fn max_llm_calls(self, max_llm_calls: usize) -> (r: Self)
        ensures
            r == (RlmBuilder { config: RlmConfig { max_llm_calls, ..self.config }, ..self }),
    {
        RlmBuilder { config: RlmConfig { max_llm_calls, ..self.config }, ..self }
    }

    pub fn max_output_chars(self, max_output_chars: usize) -> (r: Self)
        ensures
            r == (RlmBuilder { config: RlmConfig { max_output_chars, ..self.config }, ..self }),
    {
        RlmBuilder { config: RlmConfig { max_output_chars, ..self.config }, ..self }
    }

    pub fn enable_extraction_fallback(self, enable_extraction_fallback: bool) -> (r: Self)
        ensures
            r == (RlmBuilder {
                config: RlmConfig { enable_extraction_fallback, ..self.config },
                ..self
            }),
    {
        RlmBuilder { config: RlmConfig { enable_extraction_fallback, ..self.config }, ..self }
    }

    pub fn instruction(self, instruction: String) -> (r: Self)
        ensures
            r == (RlmBuilder { instruction_override: Some(instruction), ..self }),
    {
        RlmBuilder { instruction_override: Some(instruction), ..self }
    }

    pub fn runtime(self, runtime: Runtime) -> (r: Self)
        ensures
            r == (RlmBuilder { runtime: Some(runtime), ..self }),
    {
        RlmBuilder { runtime: Some(runtime), ..self }
    }

    /// Builds the module. `setting` names the runtime where none was chosen.
    pub fn build(self, schema: &SignatureSchema, setting: Option<&str>, in_tests: bool) -> (r: Rlm)
        ensures
            r.config == self.config,
            r.instruction_override == self.instruction_override,
            r.extract_instruction@ == prompt::extract_text(
                *schema,
                text::opt_view(self.instruction_override),
            ),
            r.runtime == (match self.runtime {
                Some(chosen) => chosen,
                None => runtime::chosen_runtime(
                    match setting {
                        Some(name) => Some(name@),
                        None => None,
                    },
                    in_tests,
                ),
            }),
    {
        let instruction = match &self.instruction_override {
            Some(t) => Some(t.as_str()),
            None => None,
        };
        let extract_instruction = render_extract_instruction(schema, instruction);
        let runtime = match self.runtime {
            Some(chosen) => chosen,
            None => default_runtime(self.config.max_llm_calls, setting, in_tests),
        };
        Rlm {
            extract_instruction,
            config: self.config,
            instruction_override: self.instruction_override,
            runtime,
        }
    }
}

/// A module that answers by writing code.
#[derive(Debug)]
pub struct Rlm {
    pub extract_instruction: String,
    pub config: RlmConfig,
    pub instruction_override: Option<String>,
    pub runtime: Runtime,
}

impl Rlm {
    pub fn builder() -> (r: RlmBuilder)
        ensures
            r.config == RlmConfig::standard(),
            r.instruction_override is None,
            r.runtime is None,
    {
        RlmBuilder::new()
    }

    /// What the task of a run is, in a few words: the question of the input, or else the task of
    /// the signature.
    pub open spec fn hint(self, schema: SignatureSchema, input: BamlView) -> Seq<char> {
        match perception::question_in(input) {
            Some(question) => question,
            None => prompt::task_text(schema, text::opt_view(self.instruction_override)),
        }
    }

    pub fn task_hint(&self, schema: &SignatureSchema, input: &BamlValue) -> (r: String)
        ensures
            r@ == self.hint(*schema, input@),
    {
        match task_hint_from_input(input) {
            Some(question) => question,
            None => {
                let instruction = match &self.instruction_override {
                    Some(t) => Some(t.as_str()),
                    None => None,
                };
                task_of(schema, instruction)
            },
        }
    }

    /// Looks at what a run needs, and gives the tools by which its code queries a model when the
    /// runtime has any.
    pub fn prepare(&self, requires_sub_lm_tools: bool, has_sub_lm: bool) -> (r: Result<
        Option<LlmTools>,
        RlmError,
    >)
        ensures
            if self.config.max_iterations == 0 {
                r matches Err(RlmError::Configuration { message }) && message@
                    == "max_iterations must be >= 1"@
            } else if requires_sub_lm_tools && !has_sub_lm {
                r matches Err(RlmError::Configuration { message }) && message@
                    == "Rlm runtime requires a configured sub-LM (global configure() or builder.sub_lm(...))"@
            } else if requires_sub_lm_tools {
                r matches Ok(Some(tools)) && tools.max_llm_calls == self.config.max_llm_calls
                    && tools.budget_remaining == self.config.max_llm_calls
            } else {
                r matches Ok(None)
            },
    {
        if self.config.max_iterations == 0 {
            return Err(configuration_error("max_iterations must be >= 1"));
        }
        if requires_sub_lm_tools && !has_sub_lm {
            return Err(
                configuration_error(
                    "Rlm runtime requires a configured sub-LM (global configure() or builder.sub_lm(...))",
                ),
            );
        }
        if requires_sub_lm_tools {
            Ok(Some(LlmTools::with_budget(self.config.max_llm_calls)))
        } else {
            Ok(None)
        }
    }
}

/// What a run waits for.
#[derive(Debug)]
pub enum RlmPhase {
    /// The start of the next turn.
    Turn,
    /// The reply of the model that acts.
    Act,
    /// The end of the code.
    Execute { code: String },
    /// Whether the output that was handed in has the right type.
    Accept,
    /// The reply of the model that extracts.
    Extract,
    /// Nothing.
    Done,
}

/// What is to be done next.
#[derive(Debug)]
pub enum RlmAction {
    /// Start the next turn.
    Turn,
    /// Ask the model that acts.
    Predict { perception: String, history: Option<Chat> },
    /// Empty the slot and run the code.
    Execute { code: String },
    /// Give the output its type.
    Accept { value: BamlValue, field_meta: IndexMap<String, FieldMeta> },
    /// Ask the model that extracts.
    Extract { variables_info: String, repl_history: Vec<REPLEntry> },
}

/// A run between two events.
#[derive(Debug)]
pub struct RlmRun {
    pub config: RlmConfig,
    pub previews: String,
    pub task_hint: String,
    pub roots: Vec<String>,
    pub turn_index: usize,
    pub feedback: Option<PerceptionFeedback>,
    pub history: Option<Chat>,
    pub acc: MetadataAcc,
    pub repl_history: Vec<REPLEntry>,
    pub phase: RlmPhase,
}

/// The number under which a turn is kept.
pub open spec fn turn_number(turn_index: usize) -> u32 {
    if turn_index <= u32::MAX {
        turn_index as u32
    } else {
        u32::MAX
    }
}

pub open spec fn feedback_view(f: Option<PerceptionFeedback>) -> Option<
    (Option<Seq<char>>, Option<Seq<char>>),
> {
    match f {
        Some(f) => Some(f@),
        None => None,
    }
}

impl RlmRun {
    /// Turns count from one up to one more than there may be. The turns that are kept are past
    /// ones, in order.
    pub open spec fn wf(self) -> bool {
        &&& 1 <= self.config.max_iterations < usize::MAX
        &&& 1 <= self.turn_index <= self.config.max_iterations + 1
        &&& self.phase is Act || self.phase is Execute ==> self.turn_index
            <= self.config.max_iterations
        &&& self.repl_history@.len() < self.turn_index
        &&& forall|i: int|
            0 <= i < self.repl_history@.len() ==> (#[trigger] self.repl_history@[i]).turn
                <= self.turn_index - 1
        &&& forall|i: int, j: int|
            0 <= i < j < self.repl_history@.len() ==> (#[trigger] self.repl_history@[i]).turn <= (
            #[trigger] self.repl_history@[j]).turn
    }

    /// What does not change in a run.
    pub open spec fn same_run(self, other: RlmRun) -> bool {
        &&& self.config == other.config
        &&& self.previews == other.previews
        &&& self.task_hint == other.task_hint
        &&& self.roots == other.roots
    }

    /// How many turns are left, the present one among them.
    pub open spec fn budget(self) -> nat {
        if self.turn_index <= self.config.max_iterations {
            (self.config.max_iterations - self.turn_index + 1) as nat
        } else {
            1
        }
    }

    /// Begins a run. `previews` shows the inputs, and `roots` are their names.
    pub fn new(config: RlmConfig, previews: String, task_hint: String, roots: Vec<String>) -> (r:
        Self)
        requires
            1 <= config.max_iterations < usize::MAX,
        ensures
            r.wf(),
            r.config == config,
            r.previews == previews,
            r.task_hint == task_hint,
            r.roots == roots,
            r.turn_index == 1,
            r.feedback is None,
            r.history is None,
            r.acc.raw_responses@.len() == 0,
            r.acc.tool_calls@.len() == 0,
            r.acc.tool_executions@.len() == 0,
            metadata::field_metas(r.acc.field_meta).len() == 0,
            r.acc.lm_usage == LmUsage::zero(),
            r.repl_history@.len() == 0,
            r.phase is Turn,
    {
        RlmRun {
            config,
            previews,
            task_hint,
            roots,
            turn_index: 1,
            feedback: None,
            history: None,
            acc: MetadataAcc::new(),
            repl_history: Vec::new(),
            phase: RlmPhase::Turn,
        }
    }

    /// What the next turn is for.
    pub fn turn_decision(&self) -> (r: TurnDecision)
        ensures
            r == perception::turn_policy(
                self.turn_index as nat,
                self.config.max_iterations as nat,
            ),
    {
        decide_turn_policy(self.turn_index, self.config.max_iterations)
    }

    /// Starts the next turn. While there are turns, the model is asked, with the conversation so
    /// far. Behind the last one the other model is asked to extract an output from the turns that
    /// are kept, if that is allowed. `globals` are the variables of the interpreter, which are not
    /// looked at behind the last turn.
    pub fn next_turn(
        &mut self,
        sub_lm_remaining: usize,
        globals: &Vec<(String, PyShown)>,
    ) -> (r: Result<RlmAction, RlmError>)
        requires
            old(self).wf(),
            old(self).phase is Turn,
        ensures
            final(self).wf(),
            final(self).same_run(*old(self)),
            final(self).turn_index == old(self).turn_index,
            final(self).acc == old(self).acc,
            final(self).feedback == old(self).feedback,
            if old(self).turn_index > old(self).config.max_iterations {
                if old(self).config.enable_extraction_fallback {
                    &&& r matches Ok(RlmAction::Extract { variables_info, repl_history })
                        && variables_info@ == old(self).previews@ && repl_history
                        == old(self).repl_history
                    &&& final(self).phase is Extract
                } else {
                    &&& r matches Err(RlmError::MaxIterationsReached { max }) && max
                        == old(self).config.max_iterations
                    &&& final(self).phase is Done
                }
            } else {
                &&& final(self).repl_history == old(self).repl_history
                &&& match perception::perception_text(
                    old(self).roots@,
                    globals@,
                    old(self).task_hint@,
                    feedback_view(old(self).feedback),
                    old(self).budget(),
                    sub_lm_remaining as nat,
                    old(self).turn_index == 1,
                ) {
                    Ok(t) => {
                        &&& r matches Ok(RlmAction::Predict { perception, history }) && perception@
                            == t && history == old(self).history
                        &&& final(self).history is None
                        &&& final(self).phase is Act
                    },
                    Err(e) => {
                        &&& r matches Err(RlmError::Configuration { message }) && message@ == e
                        &&& final(self).phase is Done
                    },
                }
            },
    {
        match self.turn_decision() {
            TurnDecision::Fallback => {
                if self.config.enable_extraction_fallback {
                    let mut repl_history: Vec<REPLEntry> = Vec::new();
                    std::mem::swap(&mut repl_history, &mut self.repl_history);
                    self.phase = RlmPhase::Extract;
                    return Ok(
                        RlmAction::Extract { variables_info: self.previews.clone(), repl_history },
                    );
                }
                self.phase = RlmPhase::Done;
                return Err(RlmError::MaxIterationsReached { max: self.config.max_iterations });
            },
            TurnDecision::Continue | TurnDecision::Finalization => {},
        }
        let budget_remaining = self.config.max_iterations - self.turn_index + 1;
        let told = build_perception_message(
            &self.roots,
            globals,
            self.task_hint.as_str(),
            self.feedback.as_ref(),
            budget_remaining,
            sub_lm_remaining,
            self.turn_index == 1,
        );
        match told {
            Ok(perception) => {
                let history = self.history.take();
                self.phase = RlmPhase::Act;
                Ok(RlmAction::Predict { perception, history })
            },
            Err(message) => {
                self.phase = RlmPhase::Done;
                Err(RlmError::Configuration { message })
            },
        }
    }

    /// Takes the reply of the model that acts: the code that it wrote, with what the call left
    /// and the conversation. After an empty reply the run goes on with the next turn. `why` is how
    /// the error of a reply reads that could not be read.
    pub fn action_replied(
        &mut self,
        reply: Result<(String, CallMetadata, Chat), PredictError>,
        why: &str,
    ) -> (r: Result<RlmAction, RlmError>)
        requires
            old(self).wf(),
            old(self).phase is Act,
        ensures
            final(self).wf(),
            final(self).same_run(*old(self)),
            final(self).repl_history == old(self).repl_history,
            match reply {
                Ok((code, call, chat)) => {
                    &&& r matches Ok(RlmAction::Execute { code: given }) && given == code
                    &&& MetadataAcc::absorbs(old(self).acc, final(self).acc, call)
                    &&& final(self).history == Some(chat)
                    &&& final(self).feedback == old(self).feedback
                    &&& final(self).turn_index == old(self).turn_index
                    &&& final(self).phase matches RlmPhase::Execute { code: kept } && kept == code
                },
                Err(error) => if perception::is_recoverable(error) {
                    &&& r matches Ok(RlmAction::Turn)
                    &&& error matches PredictError::Parse { raw_response, lm_usage, chat, .. }
                        && MetadataAcc::absorbs_parse(
                        old(self).acc,
                        final(self).acc,
                        raw_response,
                        lm_usage,
                    ) && final(self).history == Some(chat) && feedback_view(final(self).feedback)
                        == Some(
                        (
                            None::<Seq<char>>,
                            Some(perception::empty_reply_text(raw_response@, why@)),
                        ),
                    )
                    &&& final(self).turn_index == old(self).turn_index + 1
                    &&& final(self).phase is Turn
                } else {
                    &&& r matches Err(RlmError::ActionPredict { source }) && source == error
                    &&& final(self).phase is Done
                },
            },
    {
        match reply {
            Ok((code, call, chat)) => {
                self.acc.absorb_call_metadata(call);
                self.history = Some(chat);
                self.phase = RlmPhase::Execute { code: code.clone() };
                Ok(RlmAction::Execute { code })
            },
            Err(error) => match error {
                PredictError::Parse { source, raw_response, lm_usage, chat } => {
                    let trimmed = text::trim_str(raw_response.as_str());
                    if trimmed.as_str().is_empty() {
                        let reason = format_empty_response_recovery_reason(
                            raw_response.as_str(),
                            why,
                        );
                        self.acc.absorb_parse_metadata(raw_response, lm_usage);
                        self.history = Some(chat);
                        self.feedback = Some(
                            PerceptionFeedback { stdout: None, stderr: Some(reason) },
                        );
                        self.turn_index = self.turn_index + 1;
                        self.phase = RlmPhase::Turn;
                        Ok(RlmAction::Turn)
                    } else {
                        self.phase = RlmPhase::Done;
                        Err(
                            RlmError::ActionPredict {
                                source: PredictError::Parse {
                                    source,
                                    raw_response,
                                    lm_usage,
                                    chat,
                                },
                            },
                        )
                    }
                },
                other => {
                    self.phase = RlmPhase::Done;
                    Err(RlmError::ActionPredict { source: other })
                },
            },
        }
    }

    /// Takes what became of the code of the turn: how it ran, and what it handed in. An output
    /// that was accepted ends the turns. Else the turn is kept, and the next one is told of it.
    pub fn executed(
        &mut self,
        exec_result: Result<String, String>,
        submit_result: Option<SubmitResultDyn>,
    ) -> (r: RlmAction)
        requires
            old(self).wf(),
            old(self).phase is Execute,
        ensures
            final(self).wf(),
            final(self).same_run(*old(self)),
            final(self).acc == old(self).acc,
            final(self).history == old(self).history,
            match submit_result {
                Some(Ok((value, field_meta))) => {
                    &&& r == (RlmAction::Accept { value, field_meta })
                    &&& final(self).phase is Accept
                    &&& final(self).turn_index == old(self).turn_index
                    &&& final(self).repl_history == old(self).repl_history
                    &&& final(self).feedback == old(self).feedback
                },
                _ => {
                    let outcome = perception::outcome(exec_result, submit_result);
                    &&& r is Turn
                    &&& final(self).phase is Turn
                    &&& final(self).turn_index == old(self).turn_index + 1
                    &&& feedback_view(final(self).feedback) == Some(perception::feedback_of(outcome))
                    &&& final(self).repl_history@.len() == old(self).repl_history@.len() + 1
                    &&& final(self).repl_history@.drop_last() == old(self).repl_history@
                    &&& final(self).repl_history@.last().turn == turn_number(old(self).turn_index)
                    &&& final(self).repl_history@.last().code == old(self).phase->code
                    &&& final(self).repl_history@.last().output@ == perception::raw_output(outcome)
                },
            },
    {
        let code = match &self.phase {
            RlmPhase::Execute { code } => code.clone(),
            _ => String::new(),
        };
        match classify_exec_outcome(exec_result, submit_result) {
            ExecOutcome::SubmitAccepted { value, field_meta } => {
                self.phase = RlmPhase::Accept;
                RlmAction::Accept { value, field_meta }
            },
            other => {
                self.feedback = Some(perception_feedback_from_outcome(&other));
                let turn: u32 = if self.turn_index <= u32::MAX as usize {
                    self.turn_index as u32
                } else {
                    u32::MAX
                };
                let output = outcome_to_raw_output(&other);
                self.repl_history.push(REPLEntry { turn, code, output });
                self.turn_index = self.turn_index + 1;
                self.phase = RlmPhase::Turn;
                proof {
                    assert(self.repl_history@.drop_last() =~= old(self).repl_history@);
                }
                RlmAction::Turn
            },
        }
    }

    /// Ends the run with the output that was handed in, once it was given its type.
    pub fn accepted(
        self,
        converted: Result<(), String>,
        field_meta: IndexMap<String, FieldMeta>,
    ) -> (r: Result<(CallMetadata, Chat), RlmError>)
        requires
            self.wf(),
            self.phase is Accept,
        ensures
            match converted {
                Ok(_) => r matches Ok((call, chat)) && {
                    &&& call.raw_response@ == text::join(
                        text::views(self.acc.raw_responses@),
                        "\n\n"@,
                    )
                    &&& call.lm_usage == self.acc.lm_usage
                    &&& call.tool_calls == self.acc.tool_calls
                    &&& call.tool_executions == self.acc.tool_executions
                    &&& call.node_id is None
                    &&& metadata::field_metas(call.field_meta) == metadata::with_entries(
                        metadata::field_metas(self.acc.field_meta),
                        metadata::field_metas(field_meta),
                        metadata::field_metas(field_meta).len(),
                    )
                    &&& match self.history {
                        Some(h) => chat == h,
                        None => chat.messages@.len() == 0,
                    }
                },
                Err(e) => r matches Err(RlmError::Invariant { message }) && message@
                    == "SUBMIT produced invalid output value: "@ + e@,
            },
    {
        match converted {
            Ok(_) => {
                let mut acc = self.acc;
                extend_metas(&mut acc.field_meta, field_meta);
                let chat = match self.history {
                    Some(h) => h,
                    None => {
                        let none: Vec<Message> = Vec::new();
                        Chat::new(none)
                    },
                };
                Ok((acc.into_call_metadata(), chat))
            },
            Err(e) => {
                let mut message = "SUBMIT produced invalid output value: ".to_owned();
                message.append(e.as_str());
                Err(RlmError::Invariant { message })
            },
        }
    }

    /// Ends the run with the reply of the model that extracts. What its call left is added to
    /// what the turns left.
    pub fn extracted(self, reply: Result<(CallMetadata, Chat), PredictError>) -> (r: Result<
        (CallMetadata, Chat),
        RlmError,
    >)
        requires
            self.wf(),
            self.phase is Extract,
        ensures
            match reply {
                Ok((call, chat)) => r matches Ok((left, talk)) && talk == chat && exists|
                    acc: MetadataAcc,
                | #[trigger]
                    MetadataAcc::absorbs(self.acc, acc, call) && acc.becomes(left),
                Err(e) => r matches Err(RlmError::ExtractFallback { source }) && source == e,
            },
    {
        match reply {
            Ok((call, chat)) => {
                let mut acc = self.acc;
                acc.absorb_call_metadata(call);
                let ghost seen = acc;
                let left = acc.into_call_metadata();
                proof {
                    assert(MetadataAcc::absorbs(self.acc, seen, call) && seen.becomes(left));
                }
                Ok((left, chat))
            },
            Err(e) => Err(RlmError::ExtractFallback { source: e }),
        }
    }
}

/// The code that the model wrote is what is run, and what its call cost and said is kept with
/// what came before.
pub proof fn written_code_is_run(
    run: &mut RlmRun,
    code: String,
    call: CallMetadata,
    chat: Chat,
    why: &str,
    r: Result<RlmAction, RlmError>,
)
    requires
        old(run).wf(),
        old(run).phase is Act,
        call_ensures(
            RlmRun::action_replied,
            (run, Ok::<(String, CallMetadata, Chat), PredictError>((code, call, chat)), why),
            r,
        ),
    ensures
        r is Ok,
        r->Ok_0 is Execute,
        r->Ok_0->code == code,
        final(run).phase is Execute,
        final(run).phase->code == code,
        final(run).turn_index == old(run).turn_index,
        final(run).history == Some(chat),
        final(run).acc.raw_responses@ == old(run).acc.raw_responses@.push(call.raw_response),
        final(run).acc.tool_calls@ == old(run).acc.tool_calls@ + call.tool_calls@,
        final(run).acc.tool_executions@ == old(run).acc.tool_executions@ + call.tool_executions@,
        old(run).acc.lm_usage.total_tokens + call.lm_usage.total_tokens <= u64::MAX
            ==> final(run).acc.lm_usage.total_tokens == old(run).acc.lm_usage.total_tokens
            + call.lm_usage.total_tokens,
        old(run).acc.lm_usage.prompt_tokens + call.lm_usage.prompt_tokens <= u64::MAX
            ==> final(run).acc.lm_usage.prompt_tokens == old(run).acc.lm_usage.prompt_tokens
            + call.lm_usage.prompt_tokens,
        old(run).acc.lm_usage.completion_tokens + call.lm_usage.completion_tokens <= u64::MAX
            ==> final(run).acc.lm_usage.completion_tokens
            == old(run).acc.lm_usage.completion_tokens + call.lm_usage.completion_tokens,
{
}

/// After an empty reply the run goes on, with the reason for the next turn to read; any other
/// failure of the model that acts ends it.
pub proof fn only_empty_replies_are_forgiven(
    run: &mut RlmRun,
    error: PredictError,
    why: &str,
    r: Result<RlmAction, RlmError>,
)
    requires
        old(run).wf(),
        old(run).phase is Act,
        call_ensures(
            RlmRun::action_replied,
            (run, Err::<(String, CallMetadata, Chat), PredictError>(error), why),
            r,
        ),
    ensures
        r is Ok <==> (error is Parse && text::trim(error->raw_response@).len() == 0),
        r is Ok ==> final(run).phase is Turn && final(run).turn_index == old(run).turn_index + 1
            && final(run).feedback is Some && final(run).feedback->0.stderr is Some
            && text::has_text(final(run).feedback->0.stderr->0@, why@),
        r is Err ==> r->Err_0 is ActionPredict && final(run).phase is Done,
        final(run).repl_history == old(run).repl_history,
{
    if r is Ok {
        let raw = error->raw_response@;
        let front = "Empty response from model ("@;
        let a = "). Write executable Python code. Raw response: len="@;
        let b = text::decimal(raw.len());
        let c = ", snippet="@;
        let d = text::debug_text(
            text::truncated(raw, perception::MAX_RECOVERABLE_PARSE_SNIPPET_CHARS as nat),
        );
        let e = "."@;
        let all = perception::empty_reply_text(raw, why@);
        assert(all == front + why@ + a + b + c + d + e);
        text_laws::lemma_grouped(front + why@ + a + b + c, d, e);
        text_laws::lemma_grouped(front + why@ + a + b, c, d + e);
        text_laws::lemma_grouped(front + why@ + a, b, c + (d + e));
        text_laws::lemma_grouped(front + why@, a, b + (c + (d + e)));
        text_laws::lemma_inside(front, why@, a + (b + (c + (d + e))));
        assert(final(run).feedback->0@.1 == Some(all));
    }
}

/// An output that was accepted ends the turns, whatever the code printed; else the turn is kept
/// with its number, its code and what came of it, behind the turns before.
pub proof fn turns_are_kept_until_an_output_is_accepted(
    run: &mut RlmRun,
    exec_result: Result<String, String>,
    submit_result: Option<SubmitResultDyn>,
    r: RlmAction,
)
    requires
        old(run).wf(),
        old(run).phase is Execute,
        call_ensures(RlmRun::executed, (run, exec_result, submit_result), r),
    ensures
        r is Accept <==> submit_result is Some && submit_result->0 is Ok,
        r is Accept ==> r->value == submit_result->0->Ok_0.0 && r->field_meta
            == submit_result->0->Ok_0.1 && final(run).repl_history == old(run).repl_history,
        !(r is Accept) ==> {
            &&& r is Turn
            &&& final(run).turn_index == old(run).turn_index + 1
            &&& final(run).repl_history@.len() == old(run).repl_history@.len() + 1
            &&& final(run).repl_history@.drop_last() == old(run).repl_history@
            &&& final(run).repl_history@.last().code == old(run).phase->code
            &&& old(run).turn_index <= u32::MAX ==> final(run).repl_history@.last().turn
                == old(run).turn_index
        },
        submit_result is None && exec_result is Ok ==> final(run).repl_history@.last().output@
            == exec_result->Ok_0@,
        submit_result is None && exec_result is Err ==> final(run).repl_history@.last().output@
            == exec_result->Err_0@,
{
}

/// What the code of a turn printed, or how it failed, is what the model reads at the start of the
/// next turn.
pub proof fn the_next_turn_reads_what_came_of_the_last(
    run: &mut RlmRun,
    exec_result: Result<String, String>,
    r: RlmAction,
    next: &mut RlmRun,
    sub_lm_remaining: usize,
    globals: &Vec<(String, PyShown)>,
    perception: String,
    history: Option<Chat>,
)
    requires
        old(run).wf(),
        old(run).phase is Execute,
        call_ensures(RlmRun::executed, (run, exec_result, None::<SubmitResultDyn>), r),
        *old(next) == *final(run),
        call_ensures(
            RlmRun::next_turn,
            (next, sub_lm_remaining, globals),
            Ok::<RlmAction, RlmError>(RlmAction::Predict { perception, history }),
        ),
    ensures
        exec_result is Ok && text::trim(exec_result->Ok_0@).len() > 0 ==> text::has_text(
            perception@,
            exec_result->Ok_0@,
        ),
        exec_result is Err && text::trim(exec_result->Err_0@).len() > 0 ==> text::has_text(
            perception@,
            exec_result->Err_0@,
        ),
        history == old(run).history,
{
    let f = final(run).feedback->0;
    crate::modules::rlm::perception::lemma_feedback_is_told(
        old(next).roots@,
        globals@,
        old(next).task_hint@,
        f@,
        old(next).budget(),
        sub_lm_remaining as nat,
        old(next).turn_index == 1,
        perception@,
    );
}

/// Behind the last turn the model that extracts gets every turn that was kept, where that is
/// allowed, and the run fails where it is not.
pub proof fn the_fallback_gets_every_turn(
    run: &mut RlmRun,
    sub_lm_remaining: usize,
    globals: &Vec<(String, PyShown)>,
    r: Result<RlmAction, RlmError>,
)
    requires
        old(run).wf(),
        old(run).phase is Turn,
        call_ensures(RlmRun::next_turn, (run, sub_lm_remaining, globals), r),
    ensures
        old(run).turn_index <= old(run).config.max_iterations ==> !(r matches Ok(
            RlmAction::Extract { .. },
        )) && !(r matches Err(RlmError::MaxIterationsReached { .. })),
        old(run).turn_index > old(run).config.max_iterations
            && old(run).config.enable_extraction_fallback ==> r is Ok && r->Ok_0 is Extract
            && r->Ok_0->repl_history == old(run).repl_history && r->Ok_0->variables_info@
            == old(run).previews@,
        old(run).turn_index > old(run).config.max_iterations
            && !old(run).config.enable_extraction_fallback ==> r is Err
            && r->Err_0 is MaxIterationsReached && r->Err_0->max
            == old(run).config.max_iterations,
{
}

/// What a run that was accepted leaves holds every reply of its model, in order, and all that the
/// calls cost.
pub proof fn accepted_runs_leave_every_reply(
    run: RlmRun,
    field_meta: IndexMap<String, FieldMeta>,
    call: CallMetadata,
    chat: Chat,
    i: int,
    j: int,
)
    requires
        run.wf(),
        run.phase is Accept,
        call_ensures(
            RlmRun::accepted,
            (run, Ok::<(), String>(()), field_meta),
            Ok::<(CallMetadata, Chat), RlmError>((call, chat)),
        ),
        0 <= i < run.acc.raw_responses@.len(),
    ensures
        text::has_text(call.raw_response@, run.acc.raw_responses@[i]@),
        i < j < run.acc.raw_responses@.len() ==> exists|a: int, b: int|
            a + run.acc.raw_responses@[i]@.len() < b && #[trigger] text::occurs_at(
                call.raw_response@,
                run.acc.raw_responses@[i]@,
                a,
            ) && #[trigger] text::occurs_at(
                call.raw_response@,
                run.acc.raw_responses@[j]@,
                b,
            ),
        call.lm_usage == run.acc.lm_usage,
        call.tool_calls == run.acc.tool_calls,
        call.tool_executions == run.acc.tool_executions,
        run.history is Some ==> chat == run.history->0,
{
    let parts = text::views(run.acc.raw_responses@);
    reveal_strlit("\n\n");
    text_laws::lemma_join_at(parts, "\n\n"@, i);
    assert(parts[i] == run.acc.raw_responses@[i]@);
    assert(text::has_text(call.raw_response@, parts[i]));
    if i < j < parts.len() {
        text_laws::lemma_join_at(parts, "\n\n"@, j);
        text_laws::lemma_offsets_grow(parts, "\n\n"@, i, j);
        assert(parts[j] == run.acc.raw_responses@[j]@);
    }
}

/// A run can be prepared exactly where it may take a turn and has the model that its code would
/// query; the budget of queries is then full.
pub proof fn runs_need_turns_and_a_model_to_query(
    rlm: &Rlm,
    requires_sub_lm_tools: bool,
    has_sub_lm: bool,
    r: Result<Option<LlmTools>, RlmError>,
)
    requires
        call_ensures(Rlm::prepare, (rlm, requires_sub_lm_tools, has_sub_lm), r),
    ensures
        r is Ok <==> rlm.config.max_iterations > 0 && (requires_sub_lm_tools ==> has_sub_lm),
        r is Ok ==> (r->Ok_0 is Some <==> requires_sub_lm_tools),
        r is Ok && r->Ok_0 is Some ==> r->Ok_0->0.budget_remaining == rlm.config.max_llm_calls,
{
}

/// What went wrong in a run is said with what is known of it.
pub proof fn failed_runs_say_why(e: &RlmError, r: String)
    requires
        call_ensures(RlmError::message, (e,), r),
    ensures
        *e matches RlmError::Configuration { message } ==> text::has_suffix(r@, message@),
        *e matches RlmError::PythonExec { message } ==> text::has_suffix(r@, message@),
        *e matches RlmError::Invariant { message } ==> text::has_suffix(r@, message@),
        *e matches RlmError::MaxIterationsReached { max } ==> text::has_text(
            r@,
            text::decimal(max as nat),
        ),
{
    match *e {
        RlmError::Configuration { message } => {
            text_laws::lemma_ends("configuration error: "@, message@);
        },
        RlmError::PythonExec { message } => {
            text_laws::lemma_ends("python execution failed: "@, message@);
        },
        RlmError::Invariant { message } => {
            text_laws::lemma_ends("internal invariant violated: "@, message@);
        },
        RlmError::MaxIterationsReached { max } => {
            text_laws::lemma_inside(
                "max iterations reached ("@,
                text::decimal(max as nat),
                ")"@,
            );
        },
        _ => {},
    }
}

} // verus!
