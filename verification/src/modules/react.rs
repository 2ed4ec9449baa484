//! A module that acts by tools, step by step, and then extracts its output.

use vstd::prelude::*;

use crate::json::Json;
use crate::modules::rlm::metadata::{CallMetadata, ToolCall};
use crate::text;
use crate::text_laws;

verus! {

/// A tool by what a model is told of it.
#[derive(Debug)]
pub struct ReActTool {
    pub name: String,
    pub description: String,
}

/// The tool is the one that is named: the names are equal but for case, or one holds the other.
pub open spec fn answers_to(tool: ReActTool, name: Seq<char>) -> bool {
    text::lower_text(tool.name@) == text::lower_text(name) || text::has_text(name, tool.name@)
        || text::has_text(tool.name@, name)
}

/// The first tool from `i` on that is the one named.
pub open spec fn first_answering(tools: Seq<ReActTool>, name: Seq<char>, i: int) -> Option<usize>
    decreases tools.len() - i,
{
    if i < 0 || i >= tools.len() {
        None
    } else if answers_to(tools[i], name) {
        Some(i as usize)
    } else {
        first_answering(tools, name, i + 1)
    }
}

/// The tool that an action goes to: the one that it names, or else the first.
pub open spec fn chosen_tool(tools: Seq<ReActTool>, action: Seq<char>) -> Option<usize> {
    match first_answering(tools, text::trim(action), 0) {
        Some(i) => Some(i),
        None => if tools.len() > 0 {
            Some(0)
        } else {
            None
        },
    }
}

/// The tool that an action goes to.
pub fn choose_tool(tools: &Vec<ReActTool>, action: &str) -> (r: Option<usize>)
    ensures
        r == chosen_tool(tools@, action@),
        r matches Some(i) ==> i < tools@.len(),
{
    let wanted = text::trim_str(action);
    let name = wanted.as_str();
    let mut i: usize = 0;
    while i < tools.len()
        invariant
            i <= tools@.len(),
            name@ == text::trim(action@),
            first_answering(tools@, name@, 0) == first_answering(tools@, name@, i as int),
        decreases tools@.len() - i,
    {
        let candidate = tools[i].name.as_str();
        if text::eq_ignore_case(candidate, name) || text::contains_str(name, candidate)
            || text::contains_str(candidate, name) {
            return Some(i);
        }
        i += 1;
    }
    if tools.len() > 0 {
        Some(0)
    } else {
        None
    }
}

/// The list of tools at the head of a trajectory.
pub open spec fn manifest(tools: Seq<ReActTool>) -> Seq<char> {
    if tools.len() == 0 {
        "Available tools: (none)"@
    } else {
        text::join(
            seq!["Available tools:"@] + Seq::new(
                tools.len(),
                |i: int| "- "@ + tools[i].name@ + ": "@ + tools[i].description@,
            ),
            "\n"@,
        )
    }
}

pub fn render_tool_manifest(tools: &Vec<ReActTool>) -> (r: String)
    ensures
        r@ == manifest(tools@),
{
    if tools.len() == 0 {
        return "Available tools: (none)".to_owned();
    }
    let mut lines: Vec<String> = Vec::new();
    text::push_line(&mut lines, "Available tools:".to_owned());
    let ghost rows = Seq::new(
        tools@.len(),
        |i: int| "- "@ + tools@[i].name@ + ": "@ + tools@[i].description@,
    );
    let mut i: usize = 0;
    proof {
        assert(text::views(lines@) =~= seq!["Available tools:"@] + rows.take(0));
    }
    while i < tools.len()
        invariant
            i <= tools@.len(),
            rows == Seq::new(
                tools@.len(),
                |k: int| "- "@ + tools@[k].name@ + ": "@ + tools@[k].description@,
            ),
            text::views(lines@) == seq!["Available tools:"@] + rows.take(i as int),
        decreases tools@.len() - i,
    {
        let mut line = "- ".to_owned();
        line.append(tools[i].name.as_str());
        line.append(": ");
        line.append(tools[i].description.as_str());
        text::push_line(&mut lines, line);
        proof {
            assert(text::views(lines@) =~= seq!["Available tools:"@] + rows.take(i + 1));
        }
        i += 1;
    }
    proof {
        assert(rows.take(i as int) =~= rows);
    }
    text::join_strs(&lines, "\n")
}

/// What stands inside runs of a character at both ends.
pub open spec fn trim_char(s: Seq<char>, c: char) -> Seq<char>
    decreases s.len(),
{
    if s.len() == 0 {
        s
    } else if s[0] == c {
        trim_char(s.skip(1), c)
    } else if s.last() == c {
        trim_char(s.drop_last(), c)
    } else {
        s
    }
}

fn trim_char_str(s: &str, c: char) -> (r: String)
    ensures
        r@ == trim_char(s@, c),
{
    let chars = text::chars_of(s);
    let mut a: usize = 0;
    let mut b: usize = chars.len();
    proof {
        assert(chars@.subrange(0, chars@.len() as int) =~= s@);
    }
    while a < b && chars[a] == c
        invariant
            a <= b <= chars@.len(),
            b == chars@.len(),
            trim_char(chars@.subrange(a as int, b as int), c) == trim_char(s@, c),
        decreases b - a,
    {
        proof {
            assert(chars@.subrange(a as int, b as int).skip(1) =~= chars@.subrange(
                a + 1,
                b as int,
            ));
        }
        a += 1;
    }
    while a < b && chars[b - 1] == c
        invariant
            a <= b <= chars@.len(),
            a < b ==> chars@[a as int] != c,
            trim_char(chars@.subrange(a as int, b as int), c) == trim_char(s@, c),
        decreases b - a,
    {
        proof {
            let part = chars@.subrange(a as int, b as int);
            assert(part.last() == chars@[b - 1]);
            assert(part[0] == chars@[a as int]);
            assert(part.drop_last() =~= chars@.subrange(a as int, b - 1));
        }
        b -= 1;
    }
    let part = &chars[a..b];
    proof {
        assert(part@ =~= chars@.subrange(a as int, b as int));
        if a < b {
            assert(part@[0] == chars@[a as int]);
            assert(part@.last() == chars@[b - 1]);
        }
    }
    text::string_of(part)
}

/// The name of an action, without white space and quotes around it.
pub open spec fn action_name(action: Seq<char>) -> Seq<char> {
    trim_char(trim_char(text::trim(action), '"'), '\'')
}

/// The action is the one that ends the steps.
pub open spec fn is_terminal(action: Seq<char>) -> bool {
    text::lower_text(action) == text::lower_text("finish"@) || text::lower_text(action)
        == text::lower_text("final"@) || text::lower_text(action) == text::lower_text("done"@)
}

pub fn is_terminal_action(action: &str) -> (r: bool)
    ensures
        r == is_terminal(action@),
{
    text::eq_ignore_case(action, "finish") || text::eq_ignore_case(action, "final")
        || text::eq_ignore_case(action, "done")
}

/// What a step leaves in the trajectory when it ends the steps.
pub open spec fn final_text(step: nat, thought: Seq<char>, input: Seq<char>) -> Seq<char> {
    "Step "@ + text::decimal(step) + "\nThought: "@ + thought + "\nFinal: "@ + input + "\n\n"@
}

/// What a step leaves in the trajectory when it used a tool.
pub open spec fn step_text(
    step: nat,
    thought: Seq<char>,
    action: Seq<char>,
    input: Seq<char>,
    observation: Seq<char>,
) -> Seq<char> {
    "Step "@ + text::decimal(step) + "\nThought: "@ + thought + "\nAction: "@ + action
        + "\nAction Input: "@ + input + "\nObservation: "@ + observation + "\n\n"@
}

/// What an action comes to: the reply of the tool, why it failed, or that there is no tool.
pub open spec fn observation(name: Seq<char>, result: Option<Result<String, String>>) -> Seq<char> {
    match result {
        Some(Ok(t)) => t@,
        Some(Err(e)) => "tool_error: "@ + e@,
        None => "tool_not_found: "@ + name,
    }
}

/// What a model wants to do next.
#[derive(Debug)]
pub struct ReActActionStep {
    pub thought: String,
    pub action: String,
    pub action_input: String,
}

/// What a run waits for.
#[derive(Debug)]
pub enum ReActPhase {
    Act,
    Tool { thought: String, name: String, input: String },
    Extract,
    Done,
}

/// What is to be done next.
#[derive(Debug)]
pub enum ReActAction {
    /// Ask for the next step.
    Act { input: String, trajectory: String },
    /// Call a tool, or none where there is none.
    CallTool { tool: Option<usize>, args: String },
    /// Ask for the output.
    Extract { input: String, trajectory: String },
    /// Give up, with the error of the call.
    Fail,
}

/// The settings of the module.
#[derive(Debug)]
pub struct ReAct {
    pub action_instruction: Option<String>,
    pub extract_instruction: Option<String>,
    pub tools: Vec<ReActTool>,
    pub max_steps: usize,
}

/// Settings of a module that are collected before it is built.
#[derive(Debug)]
pub struct ReActBuilder {
    pub action_instruction: Option<String>,
    pub extract_instruction: Option<String>,
    pub tools: Vec<ReActTool>,
    pub max_steps: usize,
}

impl ReActBuilder {
    pub fn new() -> (r: Self)
        ensures
            r.action_instruction is None,
            r.extract_instruction is None,
            r.tools@.len() == 0,
            r.max_steps == 4,
    {
        ReActBuilder {
            action_instruction: None,
            extract_instruction: None,
            tools: Vec::new(),
            max_steps: 4,
        }
    }

    pub fn action_instruction(self, instruction: String) -> (r: Self)
        ensures
            r == (ReActBuilder { action_instruction: Some(instruction), ..self }),
    {
        ReActBuilder { action_instruction: Some(instruction), ..self }
    }

    pub fn extract_instruction(self, instruction: String) -> (r: Self)
        ensures
            r == (ReActBuilder { extract_instruction: Some(instruction), ..self }),
    {
        ReActBuilder { extract_instruction: Some(instruction), ..self }
    }

    /// Sets how many steps there may be, at least one.
    pub fn max_steps(self, max_steps: usize) -> (r: Self)
        ensures
            r == (ReActBuilder {
                max_steps: if max_steps == 0 {
                    1
                } else {
                    max_steps
                },
                ..self
            }),
    {
        let steps: usize = if max_steps == 0 {
            1
        } else {
            max_steps
        };
        ReActBuilder { max_steps: steps, ..self }
    }

    pub fn add_tool(self, tool: ReActTool) -> (r: Self)
        ensures
            r.tools@ == self.tools@.push(tool),
            r.action_instruction == self.action_instruction,
            r.extract_instruction == self.extract_instruction,
            r.max_steps == self.max_steps,
    {
        let mut tools = self.tools;
        tools.push(tool);
        ReActBuilder {
            action_instruction: self.action_instruction,
            extract_instruction: self.extract_instruction,
            tools,
            max_steps: self.max_steps,
        }
    }

    pub fn with_tools(self, more: Vec<ReActTool>) -> (r: Self)
        ensures
            r.tools@ == self.tools@ + more@,
            r.action_instruction == self.action_instruction,
            r.extract_instruction == self.extract_instruction,
            r.max_steps == self.max_steps,
    {
        let mut tools = self.tools;
        let mut others = more;
        tools.append(&mut others);
        ReActBuilder {
            action_instruction: self.action_instruction,
            extract_instruction: self.extract_instruction,
            tools,
            max_steps: self.max_steps,
        }
    }

    pub fn build(self) -> (r: ReAct)
        ensures
            r.action_instruction == self.action_instruction,
            r.extract_instruction == self.extract_instruction,
            r.tools == self.tools,
            r.max_steps == self.max_steps,
    {
        ReAct {
            action_instruction: self.action_instruction,
            extract_instruction: self.extract_instruction,
            tools: self.tools,
            max_steps: self.max_steps,
        }
    }
}

impl ReAct {
    /// The module with the settings that a builder starts from.
    pub fn new() -> (r: Self)
        ensures
            r.action_instruction is None,
            r.extract_instruction is None,
            r.tools@.len() == 0,
            r.max_steps == 4,
    {
        ReActBuilder::new().build()
    }

    pub fn builder() -> (r: ReActBuilder)
        ensures
            r.action_instruction is None,
            r.extract_instruction is None,
            r.tools@.len() == 0,
            r.max_steps == 4,
    {
        ReActBuilder::new()
    }
}

/// A run between two events. `step` counts the steps that are over.
#[derive(Debug)]
pub struct ReActRun {
    pub input: String,
    pub max_steps: usize,
    pub step: usize,
    pub trajectory: String,
    pub tool_calls: Vec<ToolCall>,
    pub tool_executions: Vec<String>,
    pub phase: ReActPhase,
}

impl ReActRun {
    /// The steps that are over are no more than there may be, and fewer while one is under way.
    pub open spec fn wf(self) -> bool {
        &&& self.step <= self.max_steps
        &&& self.phase is Act || self.phase is Tool ==> self.step < self.max_steps
    }

    /// The action asks for the step that is due, or for the output when no step is left.
    pub open spec fn asks(self, action: ReActAction) -> bool {
        if self.step < self.max_steps {
            &&& action matches ReActAction::Act { input, trajectory } && input@ == self.input@
                && trajectory@ == self.trajectory@
            &&& self.phase is Act
        } else {
            &&& action matches ReActAction::Extract { input, trajectory } && input@ == self.input@
                && trajectory@ == self.trajectory@
            &&& self.phase is Extract
        }
    }

    fn ask(&mut self) -> (r: ReActAction)
        requires
            old(self).step <= old(self).max_steps,
        ensures
            final(self).wf(),
            final(self).asks(r),
            *final(self) == (ReActRun { phase: final(self).phase, ..*old(self) }),
    {
        if self.step < self.max_steps {
            self.phase = ReActPhase::Act;
            ReActAction::Act { input: self.input.clone(), trajectory: self.trajectory.clone() }
        } else {
            self.phase = ReActPhase::Extract;
            ReActAction::Extract { input: self.input.clone(), trajectory: self.trajectory.clone() }
        }
    }

    /// Begins a run of the module on an input.
    pub fn begin(module: &ReAct, input: String) -> (r: (Self, ReActAction))
        ensures
            r.0.wf(),
            r.0.asks(r.1),
            r.0.input == input,
            r.0.max_steps == module.max_steps,
            r.0.step == 0,
            r.0.trajectory@ == manifest(module.tools@) + "\n\n"@,
            r.0.tool_calls@.len() == 0,
            r.0.tool_executions@.len() == 0,
    {
        let mut trajectory = render_tool_manifest(&module.tools);
        trajectory.append("\n\n");
        let mut run = ReActRun {
            input,
            max_steps: module.max_steps,
            step: 0,
            trajectory,
            tool_calls: Vec::new(),
            tool_executions: Vec::new(),
            phase: ReActPhase::Done,
        };
        let action = run.ask();
        (run, action)
    }

    /// Takes the reply to a step, or that there is none. The tool calls that the reply left are
    /// taken out of its metadata.
    pub fn action_replied(
        &mut self,
        module: &ReAct,
        reply: Option<ReActActionStep>,
        metadata: &mut CallMetadata,
    ) -> (r: ReActAction)
        requires
            old(self).wf(),
            old(self).phase is Act,
        ensures
            final(self).wf(),
            final(self).input == old(self).input,
            final(self).max_steps == old(self).max_steps,
            final(self).step == old(self).step,
            final(self).tool_calls@ == old(self).tool_calls@ + old(metadata).tool_calls@,
            final(self).tool_executions@ == old(self).tool_executions@
                + old(metadata).tool_executions@,
            final(metadata).tool_calls@.len() == 0,
            final(metadata).tool_executions@.len() == 0,
            final(metadata).raw_response == old(metadata).raw_response,
            final(metadata).lm_usage == old(metadata).lm_usage,
            final(metadata).node_id == old(metadata).node_id,
            final(metadata).field_meta == old(metadata).field_meta,
            match reply {
                None => r is Fail && final(self).phase is Done && final(self).trajectory
                    == old(self).trajectory,
                Some(step) => {
                    let name = action_name(step.action@);
                    if is_terminal(name) {
                        &&& final(self).trajectory@ == old(self).trajectory@ + final_text(
                            (old(self).step + 1) as nat,
                            step.thought@,
                            step.action_input@,
                        )
                        &&& r matches ReActAction::Extract { input, trajectory } && input@
                            == old(self).input@ && trajectory@ == final(self).trajectory@
                        &&& final(self).phase is Extract
                    } else {
                        &&& final(self).trajectory == old(self).trajectory
                        &&& r matches ReActAction::CallTool { tool, args } && tool == chosen_tool(
                            module.tools@,
                            name,
                        ) && args@ == step.action_input@
                        &&& final(self).phase matches ReActPhase::Tool {
                            thought,
                            name: kept,
                            input,
                        } && thought@ == step.thought@ && kept@ == name && input@
                            == step.action_input@
                    }
                },
            },
    {
        self.tool_calls.append(&mut metadata.tool_calls);
        self.tool_executions.append(&mut metadata.tool_executions);
        let step = match reply {
            Some(step) => step,
            None => {
                self.phase = ReActPhase::Done;
                return ReActAction::Fail;
            },
        };
        let trimmed = text::trim_str(step.action.as_str());
        let unquoted = trim_char_str(trimmed.as_str(), '"');
        let name = trim_char_str(unquoted.as_str(), '\'');
        if is_terminal_action(name.as_str()) {
            let mut line = "Step ".to_owned();
            text::push_decimal(&mut line, (self.step + 1) as u64);
            line.append("\nThought: ");
            line.append(step.thought.as_str());
            line.append("\nFinal: ");
            line.append(step.action_input.as_str());
            line.append("\n\n");
            self.trajectory.append(line.as_str());
            self.phase = ReActPhase::Extract;
            ReActAction::Extract { input: self.input.clone(), trajectory: self.trajectory.clone() }
        } else {
            let tool = choose_tool(&module.tools, name.as_str());
            let args = step.action_input.clone();
            self.phase = ReActPhase::Tool {
                thought: step.thought,
                name,
                input: step.action_input,
            };
            ReActAction::CallTool { tool, args }
        }
    }

    /// Takes what the tool came to, if there was one, and goes on with the next step.
    pub fn observed(&mut self, result: Option<Result<String, String>>) -> (r: ReActAction)
        requires
            old(self).wf(),
            old(self).phase is Tool,
        ensures
            final(self).wf(),
            final(self).asks(r),
            final(self).input == old(self).input,
            final(self).max_steps == old(self).max_steps,
            final(self).step == old(self).step + 1,
            old(self).phase matches ReActPhase::Tool { thought, name, input } && {
                let seen = observation(name@, result);
                &&& final(self).trajectory@ == old(self).trajectory@ + step_text(
                    (old(self).step + 1) as nat,
                    thought@,
                    name@,
                    input@,
                    seen,
                )
                &&& final(self).tool_calls@.len() == old(self).tool_calls@.len() + 1
                &&& final(self).tool_calls@.drop_last() == old(self).tool_calls@
                &&& final(self).tool_calls@.last().id@ == "react-step-"@ + text::decimal(
                    (old(self).step + 1) as nat,
                )
                &&& final(self).tool_calls@.last().name@ == name@
                &&& final(self).tool_calls@.last().arguments matches Json::Str(t) && t@ == input@
                &&& text::views(final(self).tool_executions@) == text::views(
                    old(self).tool_executions@,
                ).push(seen)
            },
    {
        let mut phase = ReActPhase::Done;
        std::mem::swap(&mut phase, &mut self.phase);
        let (thought, name, input) = match phase {
            ReActPhase::Tool { thought, name, input } => (thought, name, input),
            _ => (String::new(), String::new(), String::new()),
        };
        let seen = match result {
            Some(Ok(t)) => t,
            Some(Err(e)) => {
                let mut out = "tool_error: ".to_owned();
                out.append(e.as_str());
                out
            },
            None => {
                let mut out = "tool_not_found: ".to_owned();
                out.append(name.as_str());
                out
            },
        };
        let number = self.step + 1;
        let mut id = "react-step-".to_owned();
        let shown = text::decimal_string(number as u64);
        id.append(shown.as_str());
        self.tool_calls.push(ToolCall { id, name: name.clone(), arguments: Json::Str(input.clone()) });
        proof {
            assert(self.tool_calls@.drop_last() =~= old(self).tool_calls@);
        }
        text::push_line(&mut self.tool_executions, seen.clone());
        let mut line = "Step ".to_owned();
        line.append(shown.as_str());
        line.append("\nThought: ");
        line.append(thought.as_str());
        line.append("\nAction: ");
        line.append(name.as_str());
        line.append("\nAction Input: ");
        line.append(input.as_str());
        line.append("\nObservation: ");
        line.append(seen.as_str());
        line.append("\n\n");
        self.trajectory.append(line.as_str());
        self.step = number;
        self.ask()
    }

    /// Ends the run: the tool calls of the steps come behind those of the last call.
    pub fn extracted(self, metadata: &mut CallMetadata)
        requires
            self.wf(),
            self.phase is Extract,
        ensures
            final(metadata).tool_calls@ == old(metadata).tool_calls@ + self.tool_calls@,
            final(metadata).tool_executions@ == old(metadata).tool_executions@
                + self.tool_executions@,
            final(metadata).raw_response == old(metadata).raw_response,
            final(metadata).lm_usage == old(metadata).lm_usage,
            final(metadata).node_id == old(metadata).node_id,
            final(metadata).field_meta == old(metadata).field_meta,
    {
        let mut calls = self.tool_calls;
        let mut executions = self.tool_executions;
        metadata.tool_calls.append(&mut calls);
        metadata.tool_executions.append(&mut executions);
    }
}

/// A module has every tool that was given to its builder, in the order in which they were given.
pub proof fn built_modules_have_their_tools(
    start: ReActBuilder,
    tool: ReActTool,
    one: ReActBuilder,
    more: Vec<ReActTool>,
    all: ReActBuilder,
    module: ReAct,
    i: int,
)
    requires
        call_ensures(ReActBuilder::add_tool, (start, tool), one),
        call_ensures(ReActBuilder::with_tools, (one, more), all),
        call_ensures(ReActBuilder::build, (all,), module),
    ensures
        module.tools@.len() == start.tools@.len() + 1 + more@.len(),
        0 <= i < start.tools@.len() ==> module.tools@[i] == start.tools@[i],
        module.tools@[start.tools@.len() as int] == tool,
        0 <= i < more@.len() ==> module.tools@[start.tools@.len() + 1 + i] == more@[i],
        module.max_steps == start.max_steps,
        module.action_instruction == start.action_instruction,
        module.extract_instruction == start.extract_instruction,
{
}

/// The calls of all steps are handed on when a run ends, behind those of its last call.
pub proof fn ended_runs_report_every_call(run: ReActRun, metadata: &mut CallMetadata, i: int)
    requires
        run.wf(),
        run.phase is Extract,
        call_ensures(ReActRun::extracted, (run, metadata), ()),
    ensures
        final(metadata).tool_calls@.len() == old(metadata).tool_calls@.len()
            + run.tool_calls@.len(),
        0 <= i < run.tool_calls@.len() ==> final(metadata).tool_calls@[old(metadata).tool_calls@.len() + i] == run.tool_calls@[i],
        0 <= i < run.tool_executions@.len() ==> final(metadata).tool_executions@[old(metadata).tool_executions@.len() + i] == run.tool_executions@[i],
        final(metadata).raw_response == old(metadata).raw_response,
{
}

/// The place of the line of a tool in the trajectory that a run begins with.
proof fn lemma_manifest_line(tools: Seq<ReActTool>, i: int) -> (at: int)
    requires
        0 <= i < tools.len(),
    ensures
        text::occurs_at(
            manifest(tools) + "\n\n"@,
            "\n- "@ + tools[i].name@ + ": "@ + tools[i].description@ + "\n"@,
            at,
        ),
        at == text_laws::offset(
            seq!["Available tools:"@] + Seq::new(
                tools.len(),
                |k: int| "- "@ + tools[k].name@ + ": "@ + tools[k].description@,
            ),
            "\n"@,
            i + 1,
        ) - 1,
{
    reveal_strlit("\n");
    reveal_strlit("\n\n");
    reveal_strlit("- ");
    reveal_strlit("\n- ");
    let rows = Seq::new(
        tools.len(),
        |k: int| "- "@ + tools[k].name@ + ": "@ + tools[k].description@,
    );
    let parts = seq!["Available tools:"@] + rows;
    let all = manifest(tools) + "\n\n"@;
    let row = rows[i];
    let line = "\n- "@ + tools[i].name@ + ": "@ + tools[i].description@ + "\n"@;
    assert(parts[i + 1] == row);
    assert(line =~= "\n"@ + row + "\n"@);
    text_laws::lemma_join_at(parts, "\n"@, i + 1);
    let at = text_laws::offset(parts, "\n"@, i + 1) - 1;
    if i + 1 < tools.len() {
        assert(manifest(tools).subrange(at, at + line.len()) == line);
        assert(all.subrange(at, at + line.len()) =~= manifest(tools).subrange(at, at + line.len()));
    } else {
        assert(manifest(tools).subrange(at, at + 1 + row.len()) == "\n"@ + row);
        assert(all.subrange(at, at + line.len()) =~= manifest(tools).subrange(
            at,
            at + 1 + row.len(),
        ) + "\n"@);
    }
    at
}

/// A run begins by telling the model of every tool: each has a line with its name and its
/// description, and the lines come in the order of the tools.
pub proof fn every_tool_is_named_to_the_model(
    module: &ReAct,
    input: String,
    r: (ReActRun, ReActAction),
    i: int,
    j: int,
)
    requires
        call_ensures(ReActRun::begin, (module, input), r),
        0 <= i < module.tools@.len(),
        0 <= j < module.tools@.len(),
    ensures
        text::has_text(
            r.0.trajectory@,
            "\n- "@ + module.tools@[i].name@ + ": "@ + module.tools@[i].description@ + "\n"@,
        ),
        i < j ==> exists|p: int, q: int|
            p < q && #[trigger] text::occurs_at(
                r.0.trajectory@,
                "\n- "@ + module.tools@[i].name@ + ": "@ + module.tools@[i].description@ + "\n"@,
                p,
            ) && #[trigger] text::occurs_at(
                r.0.trajectory@,
                "\n- "@ + module.tools@[j].name@ + ": "@ + module.tools@[j].description@ + "\n"@,
                q,
            ),
        module.max_steps > 0 ==> r.1 is Act && r.1->Act_trajectory@ == r.0.trajectory@
            && r.1->Act_input@ == input@,
        module.max_steps == 0 ==> r.1 is Extract && r.1->Extract_trajectory@ == r.0.trajectory@
            && r.1->Extract_input@ == input@,
{
    let p = lemma_manifest_line(module.tools@, i);
    let q = lemma_manifest_line(module.tools@, j);
    if i < j {
        let parts = seq!["Available tools:"@] + Seq::new(
            module.tools@.len(),
            |k: int| "- "@ + module.tools@[k].name@ + ": "@ + module.tools@[k].description@,
        );
        reveal_strlit("\n");
        text_laws::lemma_offsets_grow(parts, "\n"@, i + 1, j + 1);
        assert(p < q);
    }
}

/// A step that used a tool is added behind what the model has read before, with its thought, the
/// tool and what it was given, and what came of it: the reply of the tool, or why it failed, word
/// for word. The next step is asked for with all of that.
pub proof fn observations_are_shown_to_the_model(
    run: &mut ReActRun,
    result: Option<Result<String, String>>,
    r: ReActAction,
)
    requires
        old(run).wf(),
        old(run).phase is Tool,
        call_ensures(ReActRun::observed, (run, result), r),
    ensures
        text::has_prefix(final(run).trajectory@, old(run).trajectory@),
        ({
            let added = final(run).trajectory@.skip(old(run).trajectory@.len() as int);
            &&& text::has_text(added, "Thought: "@ + old(run).phase->Tool_thought@ + "\n"@)
            &&& text::has_text(added, "Action: "@ + old(run).phase->Tool_name@ + "\n"@)
            &&& text::has_text(added, "Action Input: "@ + old(run).phase->Tool_input@ + "\n"@)
            &&& result matches Some(Ok(t)) ==> text::has_suffix(
                added,
                "Observation: "@ + t@ + "\n\n"@,
            ) && final(run).tool_executions@.last()@ == t@
            &&& result matches Some(Err(e)) ==> text::has_text(added, e@) && text::has_text(
                final(run).tool_executions@.last()@,
                e@,
            )
            &&& result is None ==> text::has_text(
                final(run).tool_executions@.last()@,
                old(run).phase->Tool_name@,
            )
        }),
        final(run).step < final(run).max_steps ==> r is Act && r->Act_trajectory@
            == final(run).trajectory@ && r->Act_input@ == old(run).input@,
        final(run).step >= final(run).max_steps ==> r is Extract && r->Extract_trajectory@
            == final(run).trajectory@ && r->Extract_input@ == old(run).input@,
        final(run).step == old(run).step + 1,
{
    reveal_strlit("\nThought: ");
    reveal_strlit("\nAction: ");
    reveal_strlit("\nAction Input: ");
    reveal_strlit("\nObservation: ");
    reveal_strlit("Thought: ");
    reveal_strlit("Action: ");
    reveal_strlit("Action Input: ");
    reveal_strlit("Observation: ");
    reveal_strlit("\n");
    reveal_strlit("\n\n");
    let before = old(run).trajectory@;
    let all = final(run).trajectory@;
    let thought = old(run).phase->Tool_thought@;
    let name = old(run).phase->Tool_name@;
    let input = old(run).phase->Tool_input@;
    let seen = observation(name, result);
    let number = "Step "@ + text::decimal((old(run).step + 1) as nat);
    let added = all.skip(before.len() as int);
    assert(all.subrange(0, before.len() as int) =~= before);
    let a = "Thought: "@ + thought + "\n"@;
    let b = "Action: "@ + name + "\n"@;
    let c = "Action Input: "@ + input + "\n"@;
    let d = "Observation: "@ + seen + "\n\n"@;
    assert(added =~= (number + "\n"@) + a + (b + c + d));
    text_laws::lemma_inside(number + "\n"@, a, b + c + d);
    assert(added =~= (number + "\n"@ + a) + b + (c + d));
    text_laws::lemma_inside(number + "\n"@ + a, b, c + d);
    assert(added =~= (number + "\n"@ + a + b) + c + d);
    text_laws::lemma_inside(number + "\n"@ + a + b, c, d);
    text_laws::lemma_ends(number + "\n"@ + a + b + c, d);
    assert(added =~= (number + "\n"@ + a + b + c) + d);
    let shown = text::views(final(run).tool_executions@);
    assert(shown.last() == seen);
    assert(shown.last() == final(run).tool_executions@.last()@);
    text_laws::lemma_inside("Observation: "@, seen, "\n\n"@);
    text_laws::lemma_within(added, d, seen);
    match result {
        Some(Err(e)) => {
            text_laws::lemma_ends("tool_error: "@, e@);
            text_laws::lemma_within(added, seen, e@);
        },
        None => {
            text_laws::lemma_ends("tool_not_found: "@, name);
        },
        _ => {},
    }
}

/// Every call of a tool is reported with its name and what it was given, behind the calls before.
pub proof fn tool_calls_are_reported(
    run: &mut ReActRun,
    result: Option<Result<String, String>>,
    r: ReActAction,
    k: int,
)
    requires
        old(run).wf(),
        old(run).phase is Tool,
        call_ensures(ReActRun::observed, (run, result), r),
    ensures
        final(run).tool_calls@.len() == old(run).tool_calls@.len() + 1,
        0 <= k < old(run).tool_calls@.len() ==> final(run).tool_calls@[k]
            == old(run).tool_calls@[k],
        final(run).tool_calls@.last().name@ == old(run).phase->Tool_name@,
        final(run).tool_calls@.last().arguments is Str,
        final(run).tool_calls@.last().arguments->Str_0@ == old(run).phase->Tool_input@,
{
    if 0 <= k < old(run).tool_calls@.len() {
        assert(final(run).tool_calls@.drop_last()[k] == old(run).tool_calls@[k]);
    }
}

proof fn lemma_first_answering(tools: Seq<ReActTool>, name: Seq<char>, i: int, k: int)
    requires
        0 <= i <= k < tools.len(),
        tools.len() <= usize::MAX,
        answers_to(tools[k], name),
        forall|j: int| i <= j < k ==> !answers_to(#[trigger] tools[j], name),
    ensures
        first_answering(tools, name, i) == Some(k as usize),
    decreases k - i,
{
    if i < k {
        assert(!answers_to(tools[i], name));
        lemma_first_answering(tools, name, i + 1, k);
    }
}

/// An action goes to the tool that it names, whatever the case of the name and the white space
/// around it, when no tool before it has a name that is in the action, or has the action in it.
/// There is always a tool that an action goes to, unless there is none at all.
pub proof fn actions_go_to_the_tool_they_name(
    tools: &Vec<ReActTool>,
    action: &str,
    r: Option<usize>,
    k: int,
)
    requires
        call_ensures(choose_tool, (tools, action), r),
        tools@.len() <= usize::MAX,
        0 <= k < tools@.len(),
        text::lower_text(tools@[k].name@) == text::lower_text(text::trim(action@)),
        forall|j: int|
            0 <= j < k ==> text::lower_text((#[trigger] tools@[j]).name@) != text::lower_text(
                text::trim(action@),
            ) && !text::has_text(text::trim(action@), tools@[j].name@) && !text::has_text(
                tools@[j].name@,
                text::trim(action@),
            ),
    ensures
        r == Some(k as usize),
{
    let name = text::trim(action@);
    assert forall|j: int| 0 <= j < k implies !answers_to(#[trigger] tools@[j], name) by {}
    lemma_first_answering(tools@, name, 0, k);
}

/// Quotes around the name of an action do not belong to it.
proof fn lemma_unquoted(s: Seq<char>, c: char)
    requires
        s.len() > 0,
        s[0] != c,
        s.last() != c,
    ensures
        trim_char(seq![c] + s + seq![c], c) == s,
        trim_char(s, c) == s,
{
    let t = seq![c] + s + seq![c];
    assert(t[0] == c);
    assert(t.skip(1) =~= s + seq![c]);
    let u = s + seq![c];
    assert(u[0] == s[0]);
    assert(u.last() == c);
    assert(u.drop_last() =~= s);
    assert(trim_char(u, c) == trim_char(s, c));
}

/// A reply that names an action goes to a tool with what it says the tool is to be given, and the
/// name that is kept is the one in the reply, without quotes around it. Only `finish`, `final` and
/// `done` end the steps, whatever their case: then the output is asked for, behind a line that
/// holds the thought and the answer of the reply.
pub proof fn replies_choose_between_tools_and_the_end(
    run: &mut ReActRun,
    module: &ReAct,
    step: ReActActionStep,
    metadata: &mut CallMetadata,
    name: Seq<char>,
    r: ReActAction,
)
    requires
        old(run).wf(),
        old(run).phase is Act,
        call_ensures(ReActRun::action_replied, (run, module, Some(step), metadata), r),
        name.len() > 0,
        !text::is_space(name[0]) && !text::is_space(name.last()),
        name[0] != '"' && name[0] != '\'' && name.last() != '"' && name.last() != '\'',
        step.action@ == name || step.action@ == seq!['"'] + name + seq!['"'] || step.action@
            == seq!['\''] + name + seq!['\''],
    ensures
        text::lower_text(name) == "finish"@ || text::lower_text(name) == "final"@
            || text::lower_text(name) == "done"@ ==> {
            &&& r is Extract
            &&& r->Extract_input@ == old(run).input@
            &&& text::has_prefix(r->Extract_trajectory@, old(run).trajectory@)
            &&& text::has_text(r->Extract_trajectory@, step.thought@)
            &&& text::has_suffix(
                r->Extract_trajectory@,
                "\nFinal: "@ + step.action_input@ + "\n\n"@,
            )
        },
        !(text::lower_text(name) == "finish"@ || text::lower_text(name) == "final"@
            || text::lower_text(name) == "done"@) ==> {
            &&& r is CallTool
            &&& r->args@ == step.action_input@
            &&& final(run).phase is Tool
            &&& final(run).phase->Tool_name@ == name
            &&& final(run).phase->Tool_thought@ == step.thought@
            &&& final(run).phase->Tool_input@ == step.action_input@
            &&& module.tools@.len() > 0 <==> r->tool is Some
        },
        final(run).tool_calls@ == old(run).tool_calls@ + old(metadata).tool_calls@,
        final(run).tool_executions@ == old(run).tool_executions@ + old(metadata).tool_executions@,
{
    lemma_named_action(step.action@, name);
    lemma_lower_words();
    if is_terminal(name) {
        lemma_final_text(
            old(run).trajectory@,
            (old(run).step + 1) as nat,
            step.thought@,
            step.action_input@,
        );
    } else {
        assert(r is CallTool);
    }
}

proof fn lemma_named_action(action: Seq<char>, name: Seq<char>)
    requires
        name.len() > 0,
        !text::is_space(name[0]) && !text::is_space(name.last()),
        name[0] != '"' && name[0] != '\'' && name.last() != '"' && name.last() != '\'',
        action == name || action == seq!['"'] + name + seq!['"'] || action == seq!['\''] + name
            + seq!['\''],
    ensures
        action_name(action) == name,
{
    lemma_unquoted(name, '"');
    lemma_unquoted(name, '\'');
    if action == name {
    } else if action == seq!['"'] + name + seq!['"'] {
        assert(action[0] == '"' && action.last() == '"');
    } else {
        assert(action[0] == '\'' && action.last() == '\'');
        assert(trim_char(action, '"') == action);
    }
    text_laws::lemma_trimmed(action);
}

proof fn lemma_final_text(before: Seq<char>, step: nat, thought: Seq<char>, input: Seq<char>)
    ensures
        ({
            let all = before + final_text(step, thought, input);
            &&& text::has_prefix(all, before)
            &&& text::has_text(all, thought)
            &&& text::has_suffix(all, "\nFinal: "@ + input + "\n\n"@)
        }),
{
    let number = "Step "@ + text::decimal(step) + "\nThought: "@;
    let tail = "\nFinal: "@ + input + "\n\n"@;
    let head = number + thought;
    text_laws::lemma_grouped(head, "\nFinal: "@, input);
    text_laws::lemma_grouped(head, "\nFinal: "@ + input, "\n\n"@);
    assert(final_text(step, thought, input) == head + tail);
    text_laws::lemma_ends(before, head + tail);
    text_laws::lemma_grouped(before, head, tail);
    text_laws::lemma_grouped(before, number, thought);
    text_laws::lemma_inside(before + number, thought, tail);
    text_laws::lemma_ends(before + number + thought, tail);
}

proof fn lemma_lower_words()
    ensures
        text::lower_text("finish"@) == "finish"@,
        text::lower_text("final"@) == "final"@,
        text::lower_text("done"@) == "done"@,
{
    reveal_strlit("finish");
    reveal_strlit("final");
    reveal_strlit("done");
    assert(text::lower_text("finish"@) =~= "finish"@);
    assert(text::lower_text("final"@) =~= "final"@);
    assert(text::lower_text("done"@) =~= "done"@);
}

} // verus!
