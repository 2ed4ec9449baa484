//! Searching over edits of a program: the menu of edits, and the run as steps between
//! evaluations.

use rand::rngs::StdRng;
use std::sync::Arc;
use vstd::prelude::*;

use crate::json;
use crate::json::{Json, JsonView};
use crate::optimizer::rollouts;
use crate::optimizer::rollouts::{
    BatchPlan,
    BatchStep,
    CandidateEval,
    CandidatePayload,
    Engine,
    EngineConfig,
    EngineError,
    GateOutcome,
    GateStep,
    Lane,
    Overlay,
};
use crate::optimizer::simba;
use crate::optimizer::store;
use crate::optimizer::store::{RolloutStore, Stored};
use crate::optimizer::summary;
use crate::optimizer::target;
use crate::optimizer::trial::Mean;
use crate::optimizer::OptimizerCommon;
use crate::random;
use crate::text;
use crate::text_laws;
use crate::trace;

verus! {

/// The kinds of edits. A tool is given by its place among the tools of the program.
#[derive(Clone, Copy, Debug, PartialEq, Eq, Structural)]
pub enum EditKind {
    AugmentSig,
    SwapToAgent,
    SwapToPredict,
    WrapRetry,
    Remove,
    AddTool { tool: usize },
    RemoveTool { tool: usize },
    SetStop,
    SetInstructionDefault,
}

/// An edit that a node admits, with its JSON form.
#[derive(Debug)]
pub struct LegalEdit {
    pub kind: EditKind,
    pub form: Json,
}

/// A node of a program, as far as edits read it.
#[derive(Debug)]
pub struct EditableNode {
    pub node: usize,
    pub leaf: Option<String>,
    pub field_names: Vec<String>,
    pub legal_edits: Vec<LegalEdit>,
}

/// A program, as far as edits read it.
#[derive(Debug)]
pub struct EditableProgram {
    pub hash: u64,
    pub source: String,
    pub nodes: Vec<EditableNode>,
    pub tools: Vec<String>,
}

impl EditableProgram {
    /// Edits name tools of the program.
    pub open spec fn wf(&self) -> bool {
        forall|i: int, j: int|
            0 <= i < self.nodes@.len() && 0 <= j < self.nodes@[i].legal_edits@.len() ==> names_tool(
                (#[trigger] self.nodes@[i].legal_edits@[j]).kind,
                self.tools@.len(),
            )
    }
}

pub open spec fn names_tool(kind: EditKind, tools: nat) -> bool {
    match kind {
        EditKind::AddTool { tool } => tool < tools,
        EditKind::RemoveTool { tool } => tool < tools,
        _ => true,
    }
}

/// A concrete edit.
#[derive(Debug)]
pub enum Edit {
    /// Put the reasoning field of a chain of thought before the outputs.
    AugmentSig { leaf: usize },
    SwapToAgent { leaf: usize, tools: Vec<usize> },
    SwapToPredict { leaf: usize },
    WrapRetry { node: usize, max_attempts: u32, backoff_ms: u64, feedback: bool },
    Remove { node: usize },
    AddTool { agent: usize, tool: usize },
    RemoveTool { agent: usize, tool: usize },
}

/// An edit on offer.
#[derive(Debug)]
pub struct MenuEntry {
    pub leaf: String,
    pub node: usize,
    pub kind: EditKind,
    pub form: Json,
}

/// The edit is on offer: it needs no free text, and no reasoning field is there already.
pub open spec fn offered(node: EditableNode, kind: EditKind) -> bool {
    match kind {
        EditKind::SetStop => false,
        EditKind::SetInstructionDefault => false,
        EditKind::AugmentSig => forall|k: int|
            0 <= k < node.field_names@.len() ==> (#[trigger] node.field_names@[k])@
                != "reasoning"@,
        _ => true,
    }
}

/// The edits on offer among the first `n` of a node, as pairs of positions.
pub open spec fn node_menu(nodes: Seq<EditableNode>, i: int, n: nat) -> Seq<(int, int)>
    decreases n,
{
    if n == 0 || n > nodes[i].legal_edits@.len() {
        Seq::empty()
    } else if offered(nodes[i], nodes[i].legal_edits@[n - 1].kind) {
        node_menu(nodes, i, (n - 1) as nat).push((i, n - 1))
    } else {
        node_menu(nodes, i, (n - 1) as nat)
    }
}

/// The edits on offer at the leaves among the first `n` nodes.
pub open spec fn menu_at(nodes: Seq<EditableNode>, n: nat) -> Seq<(int, int)>
    decreases n,
{
    if n == 0 || n > nodes.len() {
        Seq::empty()
    } else if nodes[n - 1].leaf is Some {
        menu_at(nodes, (n - 1) as nat) + node_menu(
            nodes,
            n - 1,
            nodes[n - 1].legal_edits@.len(),
        )
    } else {
        menu_at(nodes, (n - 1) as nat)
    }
}

/// The entry is the edit at the position.
pub open spec fn entry_of(entry: MenuEntry, nodes: Seq<EditableNode>, at: (int, int)) -> bool {
    let node = nodes[at.0];
    &&& 0 <= at.0 < nodes.len()
    &&& 0 <= at.1 < node.legal_edits@.len()
    &&& node.leaf is Some
    &&& entry.leaf@ == node.leaf->0@
    &&& entry.node == node.node
    &&& entry.kind == node.legal_edits@[at.1].kind
    &&& entry.form@ == node.legal_edits@[at.1].form@
    &&& offered(node, entry.kind)
}

/// The entries are those at the positions.
pub open spec fn entries_of(
    menu: Seq<MenuEntry>,
    nodes: Seq<EditableNode>,
    at: Seq<(int, int)>,
) -> bool {
    &&& menu.len() == at.len()
    &&& forall|k: int| 0 <= k < menu.len() ==> entry_of(#[trigger] menu[k], nodes, at[k])
}

fn is_offered(node: &EditableNode, kind: EditKind) -> (r: bool)
    ensures
        r == offered(*node, kind),
{
    match kind {
        EditKind::SetStop => false,
        EditKind::SetInstructionDefault => false,
        EditKind::AugmentSig => target::find_name(&node.field_names, "reasoning").is_none(),
        _ => true,
    }
}

/// What the kind of an edit does.
pub open spec fn note(tools: Seq<String>, kind: EditKind) -> Seq<char> {
    match kind {
        EditKind::AugmentSig => "prepend a chain-of-thought `reasoning` output field"@,
        EditKind::SwapToAgent =>
            "swap this `predict` leaf into a tool-using `agent` loop (tools: ["@ + text::join(
            text::views(tools),
            ", "@,
        ) + "])"@,
        EditKind::SwapToPredict => "swap this `agent` leaf back into a plain `predict`"@,
        EditKind::WrapRetry => "wrap this node in a retry (2 attempts, feedback on)"@,
        EditKind::Remove => "remove this step from its `seq`"@,
        EditKind::AddTool { tool } => "declare tool `"@ + tools[tool as int]@ + "` on this agent"@,
        EditKind::RemoveTool { tool } => "undeclare tool `"@ + tools[tool as int]@
            + "` from this agent"@,
        EditKind::SetStop => Seq::empty(),
        EditKind::SetInstructionDefault => Seq::empty(),
    }
}

fn note_of(tools: &Vec<String>, kind: EditKind) -> (r: String)
    requires
        names_tool(kind, tools@.len()),
    ensures
        r@ == note(tools@, kind),
{
    match kind {
        EditKind::AugmentSig => "prepend a chain-of-thought `reasoning` output field".to_owned(),
        EditKind::SwapToAgent => {
            let mut out =
                "swap this `predict` leaf into a tool-using `agent` loop (tools: [".to_owned();
            let all = text::join_strs(tools, ", ");
            out.append(all.as_str());
            out.append("])");
            out
        },
        EditKind::SwapToPredict => "swap this `agent` leaf back into a plain `predict`".to_owned(),
        EditKind::WrapRetry => "wrap this node in a retry (2 attempts, feedback on)".to_owned(),
        EditKind::Remove => "remove this step from its `seq`".to_owned(),
        EditKind::AddTool { tool } => {
            let mut out = "declare tool `".to_owned();
            out.append(tools[tool].as_str());
            out.append("` on this agent");
            out
        },
        EditKind::RemoveTool { tool } => {
            let mut out = "undeclare tool `".to_owned();
            out.append(tools[tool].as_str());
            out.append("` from this agent");
            out
        },
        EditKind::SetStop => String::new(),
        EditKind::SetInstructionDefault => String::new(),
    }
}

/// The line of an entry: a JSON object.
pub open spec fn menu_line(tools: Seq<String>, entry: MenuEntry, option: nat) -> Seq<char> {
    json::json_text(
        JsonView::Object(
            seq![
                ("option"@, JsonView::Number(text::decimal(option))),
                ("leaf"@, JsonView::Str(entry.leaf@)),
                ("edit"@, entry.form@),
                ("note"@, JsonView::Str(note(tools, entry.kind))),
            ],
        ),
    )
}

pub open spec fn menu_lines(tools: Seq<String>, menu: Seq<MenuEntry>) -> Seq<Seq<char>> {
    Seq::new(menu.len(), |i: int| menu_line(tools, menu[i], i as nat))
}

/// The value of a run of digits.
pub open spec fn number(digits: Seq<char>) -> nat
    decreases digits.len(),
{
    if digits.len() == 0 {
        0
    } else {
        number(digits.drop_last()) * 10 + (digits.last() as nat - 48) as nat
    }
}

/// The position of the first digit at or after `from`, or the length.
pub open spec fn first_digit(s: Seq<char>, from: int) -> int
    decreases s.len() - from,
{
    if from >= s.len() || text::is_ascii_digit(s[from]) {
        from
    } else {
        first_digit(s, from + 1)
    }
}

/// Where the run of digits from `from` on ends.
pub open spec fn digits_end(s: Seq<char>, from: int) -> int
    decreases s.len() - from,
{
    if from >= s.len() || !text::is_ascii_digit(s[from]) {
        from
    } else {
        digits_end(s, from + 1)
    }
}

/// The first number that stands in a reply.
pub open spec fn first_number(s: Seq<char>) -> Option<nat> {
    let from = first_digit(s, 0);
    if from < s.len() {
        Some(number(s.subrange(from, digits_end(s, from))))
    } else {
        None
    }
}

proof fn lemma_digits_end(s: Seq<char>, from: int)
    requires
        0 <= from <= s.len(),
    ensures
        from <= digits_end(s, from) <= s.len(),
        forall|k: int| from <= k < digits_end(s, from) ==> text::is_ascii_digit(#[trigger] s[k]),
    decreases s.len() - from,
{
    if from < s.len() && text::is_ascii_digit(s[from]) {
        lemma_digits_end(s, from + 1);
    }
}

proof fn lemma_number_grows(s: Seq<char>, a: int, b: int, from: int)
    requires
        0 <= from <= a <= b <= s.len(),
        forall|k: int| from <= k < b ==> text::is_ascii_digit(#[trigger] s[k]),
    ensures
        number(s.subrange(from, a)) <= number(s.subrange(from, b)),
    decreases b,
{
    if a < b {
        lemma_number_grows(s, a, b - 1, from);
        assert(s.subrange(from, b).drop_last() =~= s.subrange(from, b - 1));
    }
}

/// The settings of the search. `reflects` says that a model chooses the edits.
#[derive(Clone, Copy, Debug, PartialEq, Eq, Structural)]
pub struct StructuralSearch {
    pub num_iterations: usize,
    pub minibatch_size: usize,
    pub reflects: bool,
    pub max_rollouts: Option<usize>,
    pub max_lm_calls: Option<usize>,
    pub eval_concurrency: usize,
    pub seed: Option<u64>,
}

impl Default for StructuralSearch {
    fn default() -> (r: Self)
        ensures
            r == (StructuralSearch {
                num_iterations: 8,
                minibatch_size: 8,
                reflects: false,
                max_rollouts: None,
                max_lm_calls: None,
                eval_concurrency: rollouts::DEFAULT_EVAL_CONCURRENCY,
                seed: None,
            }),
    {
        StructuralSearch {
            num_iterations: 8,
            minibatch_size: 8,
            reflects: false,
            max_rollouts: None,
            max_lm_calls: None,
            eval_concurrency: rollouts::DEFAULT_EVAL_CONCURRENCY,
            seed: None,
        }
    }
}

impl StructuralSearch {
    pub open spec fn common_spec(&self) -> OptimizerCommon {
        OptimizerCommon {
            eval_concurrency: self.eval_concurrency,
            max_metric_calls: self.max_rollouts,
            max_lm_calls: self.max_lm_calls,
            cache_salt: 0,
            seed: self.seed,
        }
    }

    pub fn common(&self) -> (r: OptimizerCommon)
        ensures
            r == self.common_spec(),
    {
        OptimizerCommon {
            eval_concurrency: self.eval_concurrency,
            max_metric_calls: self.max_rollouts,
            max_lm_calls: self.max_lm_calls,
            cache_salt: 0,
            seed: self.seed,
        }
    }

    pub fn engine_config(&self) -> (r: EngineConfig)
        ensures
            r == self.common_spec().engine_config_spec(),
    {
        self.common().engine_config()
    }

    /// The edits on offer at the leaves of a program, in order.
    pub fn menu(program: &EditableProgram) -> (r: Vec<MenuEntry>)
        ensures
            entries_of(r@, program.nodes@, menu_at(program.nodes@, program.nodes@.len())),
    {
        let mut out: Vec<MenuEntry> = Vec::new();
        let mut i: usize = 0;
        while i < program.nodes.len()
            invariant
                i <= program.nodes@.len(),
                entries_of(out@, program.nodes@, menu_at(program.nodes@, i as nat)),
            decreases program.nodes@.len() - i,
        {
            let node = &program.nodes[i];
            match &node.leaf {
                Some(leaf) => {
                    let ghost before = menu_at(program.nodes@, i as nat);
                    let mut j: usize = 0;
                    proof {
                        assert(before + node_menu(program.nodes@, i as int, 0) =~= before);
                    }
                    while j < node.legal_edits.len()
                        invariant
                            i < program.nodes@.len(),
                            *node == program.nodes@[i as int],
                            node.leaf == Some(*leaf),
                            j <= node.legal_edits@.len(),
                            entries_of(
                                out@,
                                program.nodes@,
                                before + node_menu(program.nodes@, i as int, j as nat),
                            ),
                        decreases node.legal_edits@.len() - j,
                    {
                        let ghost at = before + node_menu(program.nodes@, i as int, j as nat);
                        let edit = &node.legal_edits[j];
                        if is_offered(node, edit.kind) {
                            out.push(
                                MenuEntry {
                                    leaf: leaf.clone(),
                                    node: node.node,
                                    kind: edit.kind,
                                    form: edit.form.clone(),
                                },
                            );
                            proof {
                                assert(before + node_menu(program.nodes@, i as int, (j + 1) as nat)
                                    =~= at.push((i as int, j as int)));
                            }
                        }
                        j += 1;
                    }
                },
                None => {},
            }
            i += 1;
        }
        out
    }

    /// The menu as a model reads it: one JSON object on each line.
    pub fn render_menu(program: &EditableProgram, menu: &Vec<MenuEntry>) -> (r: String)
        requires
            forall|k: int|
                0 <= k < menu@.len() ==> names_tool(
                    (#[trigger] menu@[k]).kind,
                    program.tools@.len(),
                ),
        ensures
            r@ == text::join(menu_lines(program.tools@, menu@), "\n"@),
    {
        let mut lines: Vec<String> = Vec::new();
        let mut i: usize = 0;
        while i < menu.len()
            invariant
                i <= menu@.len(),
                lines@.len() == i,
                forall|k: int|
                    0 <= k < menu@.len() ==> names_tool(
                        (#[trigger] menu@[k]).kind,
                        program.tools@.len(),
                    ),
                forall|k: int|
                    0 <= k < i ==> (#[trigger] lines@[k])@ == menu_line(
                        program.tools@,
                        menu@[k],
                        k as nat,
                    ),
            decreases menu@.len() - i,
        {
            let entry = &menu[i];
            proof {
                assert(names_tool(menu@[i as int].kind, program.tools@.len()));
            }
            let mut members: Vec<(String, Json)> = Vec::new();
            members.push(("option".to_owned(), Json::Number(text::decimal_string(i as u64))));
            members.push(("leaf".to_owned(), Json::Str(entry.leaf.clone())));
            members.push(("edit".to_owned(), entry.form.clone()));
            members.push(("note".to_owned(), Json::Str(note_of(&program.tools, entry.kind))));
            proof {
                assert(json::members_view(members@) =~= seq![
                    ("option"@, JsonView::Number(text::decimal(i as nat))),
                    ("leaf"@, JsonView::Str(entry.leaf@)),
                    ("edit"@, entry.form@),
                    ("note"@, JsonView::Str(note(program.tools@, entry.kind))),
                ]);
            }
            let object = json::object(members);
            lines.push(json::json_string(&object));
            i += 1;
        }
        proof {
            assert(text::views(lines@) =~= menu_lines(program.tools@, menu@));
        }
        text::join_strs(&lines, "\n")
    }

    /// The edit that an entry stands for.
    pub open spec fn materialized(edit: Edit, tools: nat, entry: MenuEntry) -> bool {
        match entry.kind {
            EditKind::AugmentSig => edit == (Edit::AugmentSig { leaf: entry.node }),
            EditKind::SwapToAgent => edit matches Edit::SwapToAgent { leaf, tools: all } && leaf
                == entry.node && all@ == rollouts::all_examples(tools),
            EditKind::SwapToPredict => edit == (Edit::SwapToPredict { leaf: entry.node }),
            EditKind::WrapRetry => edit == (Edit::WrapRetry {
                node: entry.node,
                max_attempts: 2,
                backoff_ms: 0,
                feedback: true,
            }),
            EditKind::Remove => edit == (Edit::Remove { node: entry.node }),
            EditKind::AddTool { tool } => edit == (Edit::AddTool { agent: entry.node, tool }),
            EditKind::RemoveTool { tool } => edit == (Edit::RemoveTool {
                agent: entry.node,
                tool,
            }),
            EditKind::SetStop => false,
            EditKind::SetInstructionDefault => false,
        }
    }

    pub fn materialize(program: &EditableProgram, entry: &MenuEntry) -> (r: Edit)
        requires
            !(entry.kind is SetStop),
            !(entry.kind is SetInstructionDefault),
        ensures
            StructuralSearch::materialized(r, program.tools@.len(), *entry),
    {
        match entry.kind {
            EditKind::AugmentSig => Edit::AugmentSig { leaf: entry.node },
            EditKind::SwapToAgent => {
                let tools = rollouts::example_range(0, program.tools.len());
                proof {
                    assert(tools@ =~= rollouts::all_examples(program.tools@.len()));
                }
                Edit::SwapToAgent { leaf: entry.node, tools }
            },
            EditKind::SwapToPredict => Edit::SwapToPredict { leaf: entry.node },
            EditKind::WrapRetry => Edit::WrapRetry {
                node: entry.node,
                max_attempts: 2,
                backoff_ms: 0,
                feedback: true,
            },
            EditKind::Remove => Edit::Remove { node: entry.node },
            EditKind::AddTool { tool } => Edit::AddTool { agent: entry.node, tool },
            EditKind::RemoveTool { tool } => Edit::RemoveTool { agent: entry.node, tool },
            _ => Edit::Remove { node: entry.node },
        }
    }

    /// The option that a reply names: the first number in it, when the menu has it.
    pub fn parse_choice(reply: &str, menu_len: usize) -> (r: Option<usize>)
        ensures
            match first_number(reply@) {
                Some(n) => if n < menu_len {
                    r == Some(n as usize)
                } else {
                    r is None
                },
                None => r is None,
            },
    {
        let c = text::chars_of(reply);
        let mut from: usize = 0;
        while from < c.len() && !('0' <= c[from] && c[from] <= '9')
            invariant
                from <= c@.len(),
                c@ == reply@,
                first_digit(c@, 0) == first_digit(c@, from as int),
            decreases c@.len() - from,
        {
            from += 1;
        }
        if from == c.len() {
            return None;
        }
        let ghost end = digits_end(c@, from as int);
        proof {
            lemma_digits_end(c@, from as int);
            assert(c@.subrange(from as int, from as int) =~= Seq::empty());
        }
        let mut value: u128 = 0;
        let mut i: usize = from;
        while i < c.len() && ('0' <= c[i] && c[i] <= '9')
            invariant
                c@ == reply@,
                from < c@.len(),
                from == first_digit(c@, 0),
                end == digits_end(c@, from as int),
                from <= i <= end <= c@.len(),
                end == digits_end(c@, i as int),
                value == number(c@.subrange(from as int, i as int)),
                i == from || value < menu_len,
                i == from ==> value == 0,
                forall|k: int| from <= k < end ==> text::is_ascii_digit(#[trigger] c@[k]),
            decreases c@.len() - i,
        {
            let d: u128 = (c[i] as u32 - 48) as u128;
            let ghost next = c@.subrange(from as int, i + 1);
            proof {
                assert(next.drop_last() =~= c@.subrange(from as int, i as int));
                assert(next.last() == c@[i as int]);
                lemma_digits_end(c@, i + 1);
            }
            value = value * 10 + d;
            i += 1;
            if value >= menu_len as u128 {
                proof {
                    lemma_number_grows(c@, i as int, end, from as int);
                }
                return None;
            }
        }
        proof {
            assert(i == end);
        }
        Some(value as usize)
    }
}

/// What the first `n` chosen examples say of the program: scores, feedback and failed calls.
pub open spec fn feedback_text(
    store: Seq<Option<Stored>>,
    minibatch: Seq<usize>,
    n: nat,
) -> Seq<char>
    decreases n,
{
    if n == 0 || n > minibatch.len() {
        Seq::empty()
    } else {
        let before = feedback_text(store, minibatch, (n - 1) as nat);
        let idx = minibatch[n - 1];
        match store[idx as int] {
            None => before,
            Some(s) => before + text::decimal((idx + 1) as nat) + ": "@ + summary::score_line(
                s.eval,
            ) + (match s.trace {
                Some(t) => summary::errors_text(t.spans@, t.spans@.len()),
                None => Seq::empty(),
            }),
        }
    }
}

pub fn summarize_feedback(store: &RolloutStore, minibatch: &[usize]) -> (r: String)
    requires
        forall|i: int| 0 <= i < minibatch@.len() ==> (#[trigger] minibatch@[i]) < store@.len(),
    ensures
        r@ == text::trim_end(feedback_text(store@, minibatch@, minibatch@.len())),
{
    let mut out = String::new();
    let total = store.len();
    let mut i: usize = 0;
    while i < minibatch.len()
        invariant
            i <= minibatch@.len(),
            total == store@.len(),
            forall|i: int| 0 <= i < minibatch@.len() ==> (#[trigger] minibatch@[i]) < store@.len(),
            out@ == feedback_text(store@, minibatch@, i as nat),
        decreases minibatch@.len() - i,
    {
        let idx = minibatch[i];
        proof {
            assert(minibatch@[i as int] < store@.len());
        }
        match &store[idx] {
            None => {},
            Some(s) => {
                text::push_decimal(&mut out, (idx + 1) as u64);
                out.append(": ");
                summary::push_score_line(&mut out, &s.eval);
                match &s.trace {
                    Some(t) => summary::push_errors(&mut out, &t.spans),
                    None => {
                        proof {
                            assert(out@ =~= out@ + Seq::<char>::empty());
                        }
                    },
                }
            },
        }
        i += 1;
        proof {
            assert(out@ =~= feedback_text(store@, minibatch@, i as nat));
        }
    }
    text::trim_end_str(out.as_str())
}

/// What came of an edit.
#[derive(Debug)]
pub struct StructuralStep {
    pub generation: usize,
    pub leaf: String,
    pub edit: Arc<Edit>,
    pub parent_hash: u64,
    pub parent_minibatch_score: Mean,
    pub child_minibatch_score: Option<Mean>,
    pub accepted: bool,
    pub full_score: Option<Mean>,
    pub rejection: Option<String>,
}

/// What a choosing model is asked.
#[derive(Debug)]
pub struct ChooseEdit {
    pub program_source: String,
    pub edit_menu: String,
    pub execution_feedback: String,
}

/// What the driver of a run does next.
#[derive(Debug)]
pub enum StructuralAction {
    /// Run the pending rollouts of the plan, commit them, and hand back the evaluation.
    Evaluate { plan: BatchPlan },
    /// Go on with `next_generation`.
    Draw,
    /// Ask the choosing model, and hand back its reply.
    Choose { prompt: ChooseEdit },
    /// Edit the program, load what comes of it, and hand back the child or the failure.
    Apply { edit: Arc<Edit> },
    /// The run is over.
    Finish,
}

/// Why a run fails.
#[derive(Debug)]
pub enum StructuralError {
    NoExamples,
    OverlayMismatch { found: u64, expected: u64 },
    BudgetTooSmall { needed: usize },
    Engine(EngineError),
}

impl StructuralError {
    pub open spec fn text(&self) -> Seq<char> {
        match self {
            StructuralError::NoExamples => "no examples to optimize over"@,
            StructuralError::OverlayMismatch { found, expected } =>
                "overlay minted against program "@ + crate::optimizer::engine::hex(
                *found as nat,
                16,
            ) + ", expected "@ + crate::optimizer::engine::hex(*expected as nat, 16),
            StructuralError::BudgetTooSmall { needed } =>
                "budget too small for the baseline pass ("@ + text::decimal(*needed as nat)
                + " rollouts needed)"@,
            StructuralError::Engine(e) => e.text(),
        }
    }

    pub fn message(&self) -> (r: String)
        ensures
            r@ == self.text(),
    {
        match self {
            StructuralError::NoExamples => "no examples to optimize over".to_owned(),
            StructuralError::OverlayMismatch { found, expected } => {
                let mut out = "overlay minted against program ".to_owned();
                crate::optimizer::engine::push_hex(&mut out, *found, 16);
                out.append(", expected ");
                crate::optimizer::engine::push_hex(&mut out, *expected, 16);
                out
            },
            StructuralError::BudgetTooSmall { needed } => {
                let mut out = "budget too small for the baseline pass (".to_owned();
                text::push_decimal(&mut out, *needed as u64);
                out.append(" rollouts needed)");
                out
            },
            StructuralError::Engine(e) => e.message(),
        }
    }
}

/// A child that is being evaluated.
#[derive(Debug)]
pub struct StructuralTrial {
    pub step: StructuralStep,
    pub edit: Arc<Edit>,
    pub program: EditableProgram,
    pub overlay: Overlay,
    pub row: usize,
}

/// What a run waits for.
#[allow(inconsistent_fields)]
#[derive(Debug)]
pub enum StructuralPhase {
    /// The baseline has to be begun.
    Fresh,
    /// The evaluation of the program as it is.
    Baseline,
    /// The next generation.
    Ready,
    /// The evaluation of the incumbent on a minibatch.
    Incumbent { minibatch: Vec<usize>, menu: Vec<MenuEntry> },
    /// The reply of the choosing model.
    Choosing { minibatch: Vec<usize>, menu: Vec<MenuEntry>, threshold: Mean },
    /// The edited program.
    Editing { minibatch: Vec<usize>, step: StructuralStep, edit: Arc<Edit> },
    /// The evaluation of the child on the minibatch.
    Minibatch { trial: StructuralTrial },
    /// The evaluation of a promoted child on all examples.
    Full { trial: StructuralTrial, minibatch: CandidateEval, score: Mean },
    /// Nothing: the run is over.
    Done,
}

/// A run of the search. `made_with` is the program and the overlay that it was made with.
pub struct StructuralRun {
    pub config: StructuralSearch,
    pub num_examples: usize,
    pub program: EditableProgram,
    pub incumbent: Overlay,
    pub incumbent_row: usize,
    pub store: RolloutStore,
    pub baseline_score: Mean,
    pub final_score: Mean,
    pub generation: usize,
    pub edits: Vec<Arc<Edit>>,
    pub steps: Vec<StructuralStep>,
    pub accepted: usize,
    pub rejected: usize,
    pub phase: StructuralPhase,
    pub made_with: Ghost<(EditableProgram, Overlay)>,
}

/// The menu is that of the program, and is not empty.
pub open spec fn menu_of(program: EditableProgram, menu: Seq<MenuEntry>) -> bool {
    menu.len() > 0 && entries_of(
        menu,
        program.nodes@,
        menu_at(program.nodes@, program.nodes@.len()),
    )
}

proof fn lemma_menu_kinds(program: EditableProgram, menu: Seq<MenuEntry>)
    requires
        program.wf(),
        menu_of(program, menu),
    ensures
        forall|k: int|
            0 <= k < menu.len() ==> names_tool((#[trigger] menu[k]).kind, program.tools@.len())
                && !(menu[k].kind is SetStop) && !(menu[k].kind is SetInstructionDefault),
{
    assert forall|k: int| 0 <= k < menu.len() implies names_tool(
        (#[trigger] menu[k]).kind,
        program.tools@.len(),
    ) && !(menu[k].kind is SetStop) && !(menu[k].kind is SetInstructionDefault) by {
        let at = menu_at(program.nodes@, program.nodes@.len())[k];
        assert(entry_of(menu[k], program.nodes@, at));
        assert(names_tool(
            program.nodes@[at.0].legal_edits@[at.1].kind,
            program.tools@.len(),
        ));
    }
}

/// The menu of a program never offers an edit that needs free text, nor a second reasoning
/// field.
pub proof fn menu_offers_no_free_text_and_no_second_reasoning_field(
    program: EditableProgram,
    menu: Seq<MenuEntry>,
    k: int,
)
    requires
        menu_of(program, menu),
        0 <= k < menu.len(),
    ensures
        !(menu[k].kind is SetStop),
        !(menu[k].kind is SetInstructionDefault),
        menu[k].kind is AugmentSig ==> exists|i: int|
            0 <= i < program.nodes@.len() && menu[k].leaf@ == (
            #[trigger] program.nodes@[i]).leaf->0@ && forall|f: int|
                0 <= f < program.nodes@[i].field_names@.len() ==> (
                #[trigger] program.nodes@[i].field_names@[f])@ != "reasoning"@,
{
    let at = menu_at(program.nodes@, program.nodes@.len())[k];
    assert(entry_of(menu[k], program.nodes@, at));
    let node = program.nodes@[at.0];
    assert(menu[k].leaf@ == node.leaf->0@);
}

/// A step whose child was not scored yet.
pub open spec fn begun_step(step: StructuralStep) -> bool {
    &&& !step.accepted
    &&& step.full_score is None
    &&& step.child_minibatch_score is None
    &&& step.rejection is None
}

/// How a step ends: a child is accepted exactly when it is scored on all examples, which takes
/// that it beats the incumbent on the minibatch. One that could not be made is not scored.
pub open spec fn ended(step: StructuralStep) -> bool {
    &&& step.accepted <==> step.full_score is Some
    &&& match step.child_minibatch_score {
        Some(mean) => step.rejection is None && (step.accepted <==> mean.key
            > step.parent_minibatch_score.key),
        None => !step.accepted,
    }
}

/// How many steps were accepted.
pub open spec fn acceptances(steps: Seq<StructuralStep>) -> nat
    decreases steps.len(),
{
    if steps.len() == 0 {
        0
    } else {
        acceptances(steps.drop_last()) + if steps.last().accepted {
            1nat
        } else {
            0nat
        }
    }
}

/// The score on all examples of the last child that was accepted.
pub open spec fn last_full(steps: Seq<StructuralStep>) -> Option<Mean>
    decreases steps.len(),
{
    if steps.len() == 0 {
        None
    } else if steps.last().accepted {
        steps.last().full_score
    } else {
        last_full(steps.drop_last())
    }
}

impl StructuralRun {
    /// Every step has ended, and no more of them are counted than there are. The accepted ones are
    /// counted, and each left an edit. The final score is that of the last accepted one or, without
    /// any, that of the baseline. As long as none was accepted, the program and the incumbent are
    /// those that the run was made with. Positions are in range, and behind the baseline every
    /// example is known.
    pub open spec fn wf(&self) -> bool {
        &&& self.num_examples > 0
        &&& self.accepted == 0 ==> self.program == self.made_with@.0 && self.incumbent
            == self.made_with@.1
        &&& self.store@.len() == self.num_examples
        &&& self.program.wf()
        &&& self.generation <= self.config.num_iterations
        &&& self.accepted + self.rejected <= self.generation
        &&& self.accepted + self.rejected <= self.steps@.len()
        &&& self.accepted == self.edits@.len()
        &&& self.accepted == acceptances(self.steps@)
        &&& forall|i: int| 0 <= i < self.steps@.len() ==> ended(#[trigger] self.steps@[i])
        &&& self.scored() ==> self.final_score == (match last_full(self.steps@) {
            Some(mean) => mean,
            None => self.baseline_score,
        })
        &&& self.phase is Fresh || self.phase is Baseline ==> self.steps@.len() == 0
        &&& match self.phase {
            StructuralPhase::Fresh => true,
            StructuralPhase::Baseline => true,
            StructuralPhase::Ready => store::complete(self.store@),
            StructuralPhase::Incumbent { minibatch, menu } => self.in_step(minibatch@)
                && menu_of(self.program, menu@),
            StructuralPhase::Choosing { minibatch, menu, .. } => self.in_step(minibatch@)
                && menu_of(self.program, menu@),
            StructuralPhase::Editing { minibatch, step, .. } => self.in_step(minibatch@)
                && begun_step(step),
            StructuralPhase::Minibatch { trial } => store::complete(self.store@)
                && self.generation < self.config.num_iterations && trial.program.wf()
                && begun_step(trial.step),
            StructuralPhase::Full { trial, minibatch, score } => store::complete(self.store@)
                && self.generation < self.config.num_iterations && trial.program.wf()
                && begun_step(trial.step) && store::fits(
                minibatch.rollouts@,
                self.num_examples as nat,
            ) && score.key > trial.step.parent_minibatch_score.key,
            StructuralPhase::Done => true,
        }
    }

    /// The baseline was scored.
    pub open spec fn scored(&self) -> bool {
        !(self.phase is Fresh) && !(self.phase is Baseline)
    }

    pub open spec fn in_step(&self, minibatch: Seq<usize>) -> bool {
        &&& store::complete(self.store@)
        &&& self.generation < self.config.num_iterations
        &&& forall|i: int|
            0 <= i < minibatch.len() ==> (#[trigger] minibatch[i]) < self.num_examples
    }

    pub open spec fn with_phase(self, phase: StructuralPhase) -> StructuralRun {
        StructuralRun { phase, ..self }
    }

    /// A run over a program, from an overlay of it.
    pub fn new(
        config: StructuralSearch,
        program: EditableProgram,
        overlay: Overlay,
        num_examples: usize,
    ) -> (r: Result<Self, StructuralError>)
        requires
            program.wf(),
        ensures
            match r {
                Ok(run) => {
                    &&& num_examples > 0
                    &&& overlay.base == program.hash
                    &&& run.wf()
                    &&& run.config == config
                    &&& run.program == program
                    &&& run.incumbent == overlay
                    &&& run.made_with@ == (program, overlay)
                    &&& run.num_examples == num_examples
                    &&& run.store@ == store::unknown(num_examples as nat)
                    &&& run.generation == 0
                    &&& run.edits@.len() == 0
                    &&& run.steps@.len() == 0
                    &&& run.accepted == 0
                    &&& run.rejected == 0
                    &&& run.phase is Fresh
                },
                Err(StructuralError::NoExamples) => num_examples == 0,
                Err(StructuralError::OverlayMismatch { found, expected }) => num_examples > 0
                    && overlay.base != program.hash && found == overlay.base && expected
                    == program.hash,
                Err(_) => false,
            },
    {
        if num_examples == 0 {
            return Err(StructuralError::NoExamples);
        }
        if overlay.base != program.hash {
            return Err(
                StructuralError::OverlayMismatch { found: overlay.base, expected: program.hash },
            );
        }
        let ghost made_with = (program, overlay);
        Ok(
            StructuralRun {
                config,
                num_examples,
                program,
                incumbent: overlay,
                incumbent_row: 0,
                store: store::empty_store(num_examples),
                baseline_score: Mean { key: 0, text: String::new() },
                final_score: Mean { key: 0, text: String::new() },
                generation: 0,
                edits: Vec::new(),
                steps: Vec::new(),
                accepted: 0,
                rejected: 0,
                phase: StructuralPhase::Fresh,
                made_with: Ghost(made_with),
            },
        )
    }

    /// An overlay was registered.
    pub open spec fn registers_overlay(
        before: Engine,
        after: Engine,
        overlay: Overlay,
        row: usize,
    ) -> bool {
        &&& after.wf()
        &&& after.is_row(false, overlay.hash, row as int)
        &&& if exists|k: int| before.is_row(false, overlay.hash, k) {
            after == before
        } else {
            &&& Engine::grown(before, after, overlay.hash)
            &&& row == before.payloads@.len()
            &&& after.payloads@[row as int] == CandidatePayload::Overlay(overlay)
        }
    }

    /// Begins the evaluation of the program as it is.
    pub fn start(&mut self, engine: &mut Engine, lane: &Lane) -> (r: Result<
        StructuralAction,
        StructuralError,
    >)
        requires
            old(self).wf(),
            old(self).phase is Fresh,
            old(engine).wf(),
            old(engine).payloads@.len() < usize::MAX,
        ensures
            final(self).wf(),
            final(engine).wf(),
            StructuralRun::registers_overlay(
                *old(engine),
                *final(engine),
                old(self).incumbent,
                final(self).incumbent_row,
            ),
            exists|begun: Result<BatchStep, EngineError>| #[trigger]
                final(engine).begins(*lane, seq![final(self).incumbent_row], None, begun)
                    && match begun {
                    Ok(BatchStep::Run(plan)) => *final(self) == (StructuralRun {
                        incumbent_row: final(self).incumbent_row,
                        phase: StructuralPhase::Baseline,
                        ..*old(self)
                    }) && r == Ok::<StructuralAction, StructuralError>(
                        StructuralAction::Evaluate { plan },
                    ),
                    Ok(BatchStep::BudgetExhausted { needed }) => *final(self) == (StructuralRun {
                        incumbent_row: final(self).incumbent_row,
                        ..*old(self)
                    }) && r == Err::<StructuralAction, StructuralError>(
                        StructuralError::BudgetTooSmall { needed },
                    ),
                    Err(e) => *final(self) == (StructuralRun {
                        incumbent_row: final(self).incumbent_row,
                        ..*old(self)
                    }) && r == Err::<StructuralAction, StructuralError>(StructuralError::Engine(e)),
                },
    {
        let row = engine.register_overlay(self.incumbent);
        self.incumbent_row = row;
        let begun = engine.evaluate(lane, row, None);
        let ghost seen = begun;
        proof {
            assert(engine.begins(*lane, seq![self.incumbent_row], None, seen));
        }
        match begun {
            Ok(BatchStep::Run(plan)) => {
                self.phase = StructuralPhase::Baseline;
                Ok(StructuralAction::Evaluate { plan })
            },
            Ok(BatchStep::BudgetExhausted { needed }) => Err(
                StructuralError::BudgetTooSmall { needed },
            ),
            Err(e) => Err(StructuralError::Engine(e)),
        }
    }

    /// Takes the evaluation of the baseline.
    pub fn on_baseline_evaluated(&mut self, eval: &CandidateEval, mean: Mean) -> (r:
        StructuralAction)
        requires
            old(self).wf(),
            old(self).phase is Baseline,
            store::fits(eval.rollouts@, old(self).num_examples as nat),
            store::covers(eval.rollouts@, old(self).num_examples as nat),
        ensures
            final(self).wf(),
            r is Draw,
            *final(self) == (StructuralRun {
                store: final(self).store,
                baseline_score: mean,
                final_score: mean,
                phase: StructuralPhase::Ready,
                ..*old(self)
            }),
            final(self).store@ == store::stored_after(
                old(self).store@,
                eval.rollouts@,
                false,
                eval.rollouts@.len(),
            ),
    {
        proof {
            store::lemma_covered_store_is_complete(self.store@, eval.rollouts@);
        }
        store::write_rollouts(&mut self.store, eval, false);
        self.baseline_score = mean.clone();
        self.final_score = mean;
        self.phase = StructuralPhase::Ready;
        StructuralAction::Draw
    }

    /// The run ends with what it has.
    pub open spec fn finishes(
        before: StructuralRun,
        after: StructuralRun,
        r: Result<StructuralAction, StructuralError>,
    ) -> bool {
        &&& after == before.with_phase(StructuralPhase::Done)
        &&& r == Ok::<StructuralAction, StructuralError>(StructuralAction::Finish)
    }

    /// A generation on a minibatch: the incumbent is evaluated on it. The run ends when the
    /// budget does not admit the minibatch, or no edit is on offer.
    pub open spec fn begins_generation(
        before: StructuralRun,
        after: StructuralRun,
        engine: Engine,
        lane: Lane,
        minibatch: Seq<usize>,
        r: Result<StructuralAction, StructuralError>,
    ) -> bool {
        let none_offered = menu_at(before.program.nodes@, before.program.nodes@.len()).len() == 0;
        if !engine.ledger.config.budget.admits(engine.ledger.spend, minibatch.len() as usize)
            || none_offered {
            StructuralRun::finishes(before, after, r)
        } else {
            exists|begun: Result<BatchStep, EngineError>| #[trigger]
                engine.begins(lane, seq![before.incumbent_row], Some(minibatch), begun)
                    && match begun {
                    Ok(BatchStep::Run(plan)) => {
                        &&& after == before.with_phase(after.phase)
                        &&& after.phase matches StructuralPhase::Incumbent { minibatch: m, menu }
                            && m@ == minibatch && menu_of(before.program, menu@)
                        &&& r == Ok::<StructuralAction, StructuralError>(
                            StructuralAction::Evaluate { plan },
                        )
                    },
                    Ok(BatchStep::BudgetExhausted { .. }) => StructuralRun::finishes(
                        before,
                        after,
                        r,
                    ),
                    Err(e) => after == before && r == Err::<StructuralAction, StructuralError>(
                        StructuralError::Engine(e),
                    ),
                }
        }
    }

    pub fn begin_generation(&mut self, engine: &Engine, lane: &Lane, minibatch: Vec<usize>) -> (r:
        Result<StructuralAction, StructuralError>)
        requires
            old(self).wf(),
            old(self).phase is Ready,
            old(self).in_step(minibatch@),
            engine.wf(),
        ensures
            final(self).wf(),
            StructuralRun::begins_generation(
                *old(self),
                *final(self),
                *engine,
                *lane,
                minibatch@,
                r,
            ),
    {
        if !engine.budget_allows(minibatch.len()) {
            self.phase = StructuralPhase::Done;
            return Ok(StructuralAction::Finish);
        }
        let menu = StructuralSearch::menu(&self.program);
        if menu.len() == 0 {
            self.phase = StructuralPhase::Done;
            return Ok(StructuralAction::Finish);
        }
        let begun = engine.evaluate(lane, self.incumbent_row, Some(&minibatch));
        let ghost seen = begun;
        proof {
            assert(engine.begins(*lane, seq![self.incumbent_row], Some(minibatch@), seen));
        }
        match begun {
            Ok(BatchStep::Run(plan)) => {
                self.phase = StructuralPhase::Incumbent { minibatch, menu };
                Ok(StructuralAction::Evaluate { plan })
            },
            Ok(BatchStep::BudgetExhausted { .. }) => {
                self.phase = StructuralPhase::Done;
                Ok(StructuralAction::Finish)
            },
            Err(e) => Err(StructuralError::Engine(e)),
        }
    }

    /// Draws a minibatch and begins a generation on it; or ends the run behind the last one.
    pub fn next_generation(&mut self, engine: &Engine, lane: &Lane, rng: &mut StdRng) -> (r: Result<
        StructuralAction,
        StructuralError,
    >)
        requires
            old(self).wf(),
            old(self).phase is Ready,
            engine.wf(),
        ensures
            final(self).wf(),
            if old(self).generation >= old(self).config.num_iterations {
                StructuralRun::finishes(*old(self), *final(self), r)
            } else {
                exists|minibatch: Seq<usize>| #[trigger]
                    StructuralRun::begins_generation(
                        *old(self),
                        *final(self),
                        *engine,
                        *lane,
                        minibatch,
                        r,
                    ) && old(self).in_step(minibatch) && store::ascending(minibatch)
                        && minibatch.no_duplicates() && minibatch.len()
                        == crate::optimizer::gepa::GEPA::batch_size(
                        old(self).config.minibatch_size,
                        old(self).num_examples as nat,
                    )
            },
    {
        if self.generation >= self.config.num_iterations {
            self.phase = StructuralPhase::Done;
            return Ok(StructuralAction::Finish);
        }
        let minibatch = simba::draw_minibatch(
            rng,
            self.num_examples,
            self.config.minibatch_size,
        );
        let ghost drawn = minibatch@;
        let result = self.begin_generation(engine, lane, minibatch);
        proof {
            assert(StructuralRun::begins_generation(
                *old(self),
                *self,
                *engine,
                *lane,
                drawn,
                result,
            ));
        }
        result
    }

    /// What the choosing model reads of the incumbent's rollouts.
    pub open spec fn choice_feedback(&self, minibatch: Seq<usize>, threshold: Mean) -> Seq<char> {
        "Incumbent minibatch mean: "@ + threshold.text@ + "\n"@ + text::trim_end(
            feedback_text(self.store@, minibatch, minibatch.len()),
        )
    }

    /// The step of a chosen edit, before anything came of it.
    pub open spec fn open_step(
        &self,
        step: StructuralStep,
        entry: MenuEntry,
        edit: Arc<Edit>,
        threshold: Mean,
    ) -> bool {
        &&& step.generation == self.generation
        &&& step.leaf@ == entry.leaf@
        &&& step.edit == edit
        &&& step.parent_hash == self.program.hash
        &&& step.parent_minibatch_score == threshold
        &&& step.child_minibatch_score is None
        &&& !step.accepted
        &&& step.full_score is None
        &&& step.rejection is None
    }

    /// An option of the menu becomes an edit.
    pub open spec fn applies(
        before: StructuralRun,
        after: StructuralRun,
        minibatch: Seq<usize>,
        menu: Seq<MenuEntry>,
        threshold: Mean,
        option: int,
        r: StructuralAction,
    ) -> bool {
        &&& 0 <= option < menu.len()
        &&& after == before.with_phase(after.phase)
        &&& r matches StructuralAction::Apply { edit } && StructuralSearch::materialized(
            *edit,
            before.program.tools@.len(),
            menu[option],
        ) && (after.phase matches StructuralPhase::Editing { minibatch: m, step, edit: e } && m@
            == minibatch && e == edit && before.open_step(step, menu[option], edit, threshold))
    }

    /// Makes an edit of the chosen option.
    pub fn apply_option(
        &mut self,
        minibatch: Vec<usize>,
        menu: &Vec<MenuEntry>,
        threshold: Mean,
        option: usize,
    ) -> (r: StructuralAction)
        requires
            old(self).wf(),
            old(self).scored(),
            old(self).in_step(minibatch@),
            menu_of(old(self).program, menu@),
            option < menu@.len(),
        ensures
            final(self).wf(),
            StructuralRun::applies(
                *old(self),
                *final(self),
                minibatch@,
                menu@,
                threshold,
                option as int,
                r,
            ),
    {
        proof {
            lemma_menu_kinds(self.program, menu@);
            assert(!(menu@[option as int].kind is SetStop));
        }
        let entry = &menu[option];
        let edit = Arc::new(StructuralSearch::materialize(&self.program, entry));
        let step = StructuralStep {
            generation: self.generation,
            leaf: entry.leaf.clone(),
            edit: trace::share(&edit),
            parent_hash: self.program.hash,
            parent_minibatch_score: threshold,
            child_minibatch_score: None,
            accepted: false,
            full_score: None,
            rejection: None,
        };
        self.phase = StructuralPhase::Editing { minibatch, step, edit: trace::share(&edit) };
        StructuralAction::Apply { edit }
    }

    /// Takes the mean of the incumbent. The edit is chosen by a model, or drawn.
    pub fn on_incumbent_evaluated(
        &mut self,
        engine: &mut Engine,
        threshold: Mean,
        rng: &mut StdRng,
    ) -> (r: StructuralAction)
        requires
            old(self).wf(),
            old(self).phase is Incumbent,
            old(engine).wf(),
        ensures
            final(self).wf(),
            final(engine).wf(),
            ({
                let minibatch = old(self).phase->Incumbent_minibatch@;
                let menu = old(self).phase->Incumbent_menu@;
                if old(self).config.reflects {
                    &&& *final(engine) == *old(engine)
                    &&& *final(self) == old(self).with_phase(final(self).phase)
                    &&& final(self).phase matches StructuralPhase::Choosing {
                        minibatch: m,
                        menu: n,
                        threshold: t,
                    } && m@ == minibatch && n@ == menu && t == threshold
                    &&& r matches StructuralAction::Choose { prompt } && prompt.program_source@
                        == old(self).program.source@ && prompt.edit_menu@ == text::join(
                        menu_lines(old(self).program.tools@, menu),
                        "\n"@,
                    ) && prompt.execution_feedback@ == old(self).choice_feedback(
                        minibatch,
                        threshold,
                    )
                } else {
                    &&& *final(engine) == old(engine).charged(0, 0)
                    &&& exists|option: int| #[trigger]
                        StructuralRun::applies(
                            *old(self),
                            *final(self),
                            minibatch,
                            menu,
                            threshold,
                            option,
                            r,
                        )
                }
            }),
    {
        let mut phase = StructuralPhase::Ready;
        std::mem::swap(&mut phase, &mut self.phase);
        match phase {
            StructuralPhase::Incumbent { minibatch, menu } => {
                if self.config.reflects {
                    proof {
                        lemma_menu_kinds(self.program, menu@);
                    }
                    let mut execution_feedback = "Incumbent minibatch mean: ".to_owned();
                    execution_feedback.append(threshold.text.as_str());
                    execution_feedback.append("\n");
                    let seen = summarize_feedback(&self.store, &minibatch);
                    execution_feedback.append(seen.as_str());
                    let prompt = ChooseEdit {
                        program_source: self.program.source.clone(),
                        edit_menu: StructuralSearch::render_menu(&self.program, &menu),
                        execution_feedback,
                    };
                    self.phase = StructuralPhase::Choosing { minibatch, menu, threshold };
                    StructuralAction::Choose { prompt }
                } else {
                    let option = random::below(rng, menu.len());
                    engine.charge(0, 0);
                    let ghost asked = minibatch@;
                    let action = self.apply_option(minibatch, &menu, threshold, option);
                    proof {
                        assert(StructuralRun::applies(
                            *old(self),
                            *self,
                            asked,
                            menu@,
                            threshold,
                            option as int,
                            action,
                        ));
                    }
                    action
                }
            },
            _ => StructuralAction::Draw,
        }
    }

    /// Takes the reply of the choosing model, `None` when the call failed. A reply that names
    /// no option is answered by a draw. Either way one model call is charged.
    pub fn on_chosen(&mut self, engine: &mut Engine, reply: Option<String>, rng: &mut StdRng) -> (r:
        StructuralAction)
        requires
            old(self).wf(),
            old(self).phase is Choosing,
            old(engine).wf(),
        ensures
            final(self).wf(),
            final(engine).wf(),
            *final(engine) == old(engine).charged(0, 1),
            exists|option: int| #[trigger]
                StructuralRun::applies(
                    *old(self),
                    *final(self),
                    old(self).phase->Choosing_minibatch@,
                    old(self).phase->Choosing_menu@,
                    old(self).phase->Choosing_threshold,
                    option,
                    r,
                ) && (reply is Some ==> match first_number(reply->0@) {
                    Some(n) => n < old(self).phase->Choosing_menu@.len() ==> option == n,
                    None => true,
                }),
    {
        let mut phase = StructuralPhase::Ready;
        std::mem::swap(&mut phase, &mut self.phase);
        match phase {
            StructuralPhase::Choosing { minibatch, menu, threshold } => {
                let parsed = match &reply {
                    Some(t) => StructuralSearch::parse_choice(t.as_str(), menu.len()),
                    None => None,
                };
                let option = match parsed {
                    Some(option) => option,
                    None => random::below(rng, menu.len()),
                };
                engine.charge(0, 1);
                let ghost asked = minibatch@;
                let action = self.apply_option(minibatch, &menu, threshold, option);
                proof {
                    assert(StructuralRun::applies(
                        *old(self),
                        *self,
                        asked,
                        menu@,
                        threshold,
                        option as int,
                        action,
                    ));
                }
                action
            },
            _ => StructuralAction::Draw,
        }
    }

    /// A generation is over: its step is written down.
    pub open spec fn stepped(
        before: StructuralRun,
        after: StructuralRun,
        accepted: int,
        rejected: int,
    ) -> bool {
        &&& after.generation == before.generation + 1
        &&& after.phase is Ready
        &&& after.accepted == before.accepted + accepted
        &&& after.rejected == before.rejected + rejected
        &&& after.steps@.len() == before.steps@.len() + 1
        &&& after.steps@.drop_last() == before.steps@
        &&& after.config == before.config
        &&& after.num_examples == before.num_examples
        &&& after.baseline_score == before.baseline_score
        &&& after.made_with == before.made_with
    }

    /// Nothing that a rejected edit could have changed has changed.
    pub open spec fn keeps_incumbent(before: StructuralRun, after: StructuralRun) -> bool {
        &&& after.program == before.program
        &&& after.incumbent == before.incumbent
        &&& after.incumbent_row == before.incumbent_row
        &&& after.store == before.store
        &&& after.final_score == before.final_score
        &&& after.edits == before.edits
    }

    /// Takes the failure of an edit, or of loading the edited program: the step is rejected,
    /// and the search goes on. `stage` is `edit` or `load`.
    pub fn on_edit_failed(&mut self, stage: &str, error: &str) -> (r: StructuralAction)
        requires
            old(self).wf(),
            old(self).phase is Editing,
        ensures
            final(self).wf(),
            r is Draw,
            StructuralRun::stepped(*old(self), *final(self), 0, 1),
            StructuralRun::keeps_incumbent(*old(self), *final(self)),
            final(self).steps@.last() == (StructuralStep {
                rejection: final(self).steps@.last().rejection,
                ..old(self).phase->Editing_step
            }),
            final(self).steps@.last().rejection is Some,
            final(self).steps@.last().rejection->0@ == stage@ + " failed: "@ + error@,
    {
        let mut phase = StructuralPhase::Ready;
        std::mem::swap(&mut phase, &mut self.phase);
        match phase {
            StructuralPhase::Editing { minibatch: _, step, edit: _ } => {
                let mut reason = stage.to_owned();
                reason.append(" failed: ");
                reason.append(error);
                let mut closed = step;
                closed.rejection = Some(reason);
                let ghost steps_before = self.steps@;
                self.steps.push(closed);
                proof {
                    assert(self.steps@.drop_last() =~= steps_before);
                }
                self.rejected = self.rejected + 1;
                self.generation = self.generation + 1;
                StructuralAction::Draw
            },
            _ => StructuralAction::Draw,
        }
    }

    /// The run ends with the step of an edit whose evaluation the budget did not admit.
    pub open spec fn cut_short(
        before: StructuralRun,
        after: StructuralRun,
        step: StructuralStep,
        r: Result<StructuralAction, StructuralError>,
    ) -> bool {
        &&& after == (StructuralRun {
            steps: after.steps,
            phase: StructuralPhase::Done,
            ..before
        })
        &&& after.steps@ == before.steps@.push(step)
        &&& r == Ok::<StructuralAction, StructuralError>(StructuralAction::Finish)
    }

    /// The run ends with an error of the engine; what it has is kept.
    pub open spec fn broken_off(
        before: StructuralRun,
        after: StructuralRun,
        error: EngineError,
        r: Result<StructuralAction, StructuralError>,
    ) -> bool {
        &&& after == before.with_phase(StructuralPhase::Done)
        &&& r == Err::<StructuralAction, StructuralError>(StructuralError::Engine(error))
    }

    /// Takes the edited program with the overlay that was migrated to it: its evaluation on
    /// the minibatch is begun.
    pub fn on_child_loaded(
        &mut self,
        engine: &mut Engine,
        lane: &Lane,
        program: EditableProgram,
        overlay: Overlay,
    ) -> (r: Result<StructuralAction, StructuralError>)
        requires
            old(self).wf(),
            old(self).phase is Editing,
            program.wf(),
            old(engine).wf(),
            old(engine).payloads@.len() < usize::MAX,
        ensures
            final(self).wf(),
            final(engine).wf(),
            exists|row: usize, begun: Result<BatchStep, EngineError>|
                #![trigger StructuralRun::registers_overlay(*old(engine), *final(engine), overlay, row),
                    final(engine).begins(*lane, seq![row], Some(old(self).phase->Editing_minibatch@), begun)]
                StructuralRun::registers_overlay(*old(engine), *final(engine), overlay, row)
                    && final(engine).begins(
                    *lane,
                    seq![row],
                    Some(old(self).phase->Editing_minibatch@),
                    begun,
                ) && match begun {
                    Ok(BatchStep::Run(plan)) => {
                        &&& *final(self) == old(self).with_phase(
                            StructuralPhase::Minibatch {
                                trial: StructuralTrial {
                                    step: old(self).phase->Editing_step,
                                    edit: old(self).phase->Editing_edit,
                                    program,
                                    overlay,
                                    row,
                                },
                            },
                        )
                        &&& r == Ok::<StructuralAction, StructuralError>(
                            StructuralAction::Evaluate { plan },
                        )
                    },
                    Ok(BatchStep::BudgetExhausted { .. }) => StructuralRun::cut_short(
                        *old(self),
                        *final(self),
                        old(self).phase->Editing_step,
                        r,
                    ),
                    Err(e) => StructuralRun::broken_off(*old(self), *final(self), e, r),
                },
    {
        let mut phase = StructuralPhase::Done;
        std::mem::swap(&mut phase, &mut self.phase);
        match phase {
            StructuralPhase::Editing { minibatch, step, edit } => {
                let row = engine.register_overlay(overlay);
                let begun = engine.evaluate(lane, row, Some(&minibatch));
                let ghost seen = begun;
                proof {
                    assert(StructuralRun::registers_overlay(
                        *old(engine),
                        *engine,
                        overlay,
                        row,
                    ));
                    assert(engine.begins(*lane, seq![row], Some(minibatch@), seen));
                }
                match begun {
                    Ok(BatchStep::Run(plan)) => {
                        self.phase = StructuralPhase::Minibatch {
                            trial: StructuralTrial { step, edit, program, overlay, row },
                        };
                        Ok(StructuralAction::Evaluate { plan })
                    },
                    Ok(BatchStep::BudgetExhausted { .. }) => {
                        let ghost steps_before = self.steps@;
                        self.steps.push(step);
                        proof {
                            assert(self.steps@.drop_last() =~= steps_before);
                        }
                        Ok(StructuralAction::Finish)
                    },
                    Err(e) => Err(StructuralError::Engine(e)),
                }
            },
            _ => Ok(StructuralAction::Draw),
        }
    }

    /// What follows the evaluation of a child on the minibatch.
    pub open spec fn after_minibatch(
        before: StructuralRun,
        after: StructuralRun,
        engine: Engine,
        lane: Lane,
        eval: CandidateEval,
        mean: Mean,
        r: Result<StructuralAction, StructuralError>,
    ) -> bool {
        let trial = before.phase->Minibatch_trial;
        if mean.key <= trial.step.parent_minibatch_score.key {
            &&& StructuralRun::stepped(before, after, 0, 1)
            &&& StructuralRun::keeps_incumbent(before, after)
            &&& after.steps@.last() == (StructuralStep {
                child_minibatch_score: Some(mean),
                ..trial.step
            })
            &&& r == Ok::<StructuralAction, StructuralError>(StructuralAction::Draw)
        } else {
            exists|begun: Result<BatchStep, EngineError>| #[trigger]
                engine.begins(lane, seq![trial.row], None, begun) && match begun {
                    Ok(BatchStep::Run(plan)) => {
                        &&& after == before.with_phase(
                            StructuralPhase::Full { trial, minibatch: eval, score: mean },
                        )
                        &&& r == Ok::<StructuralAction, StructuralError>(
                            StructuralAction::Evaluate { plan },
                        )
                    },
                    Ok(BatchStep::BudgetExhausted { .. }) => StructuralRun::cut_short(
                        before,
                        after,
                        trial.step,
                        r,
                    ),
                    Err(e) => StructuralRun::broken_off(before, after, e, r),
                }
        }
    }

    /// Takes the evaluation of the child on the minibatch: one that does not beat the incumbent
    /// is rejected, and another one is evaluated on all examples.
    pub fn on_minibatch_evaluated(
        &mut self,
        engine: &Engine,
        lane: &Lane,
        eval: CandidateEval,
        mean: Mean,
    ) -> (r: Result<StructuralAction, StructuralError>)
        requires
            old(self).wf(),
            old(self).phase is Minibatch,
            engine.wf(),
            store::fits(eval.rollouts@, old(self).num_examples as nat),
        ensures
            final(self).wf(),
            StructuralRun::after_minibatch(
                *old(self),
                *final(self),
                *engine,
                *lane,
                eval,
                mean,
                r,
            ),
    {
        let mut phase = StructuralPhase::Done;
        std::mem::swap(&mut phase, &mut self.phase);
        match phase {
            StructuralPhase::Minibatch { trial } => {
                let gate = engine.evaluate_gated(
                    lane,
                    trial.row,
                    eval,
                    mean.key,
                    trial.step.parent_minibatch_score.key,
                );
                match gate {
                    Ok(GateStep::Done(GateOutcome::Rejected { .. })) => {
                        let ghost steps_before = self.steps@;
                        let mut step = trial.step;
                        step.child_minibatch_score = Some(mean);
                        self.steps.push(step);
                        proof {
                            assert(self.steps@.drop_last() =~= steps_before);
                        }
                        self.rejected = self.rejected + 1;
                        self.generation = self.generation + 1;
                        self.phase = StructuralPhase::Ready;
                        Ok(StructuralAction::Draw)
                    },
                    Ok(GateStep::RunFull { minibatch, plan }) => {
                        self.phase = StructuralPhase::Full { trial, minibatch, score: mean };
                        Ok(StructuralAction::Evaluate { plan })
                    },
                    Ok(GateStep::Done(_)) => {
                        let ghost steps_before = self.steps@;
                        self.steps.push(trial.step);
                        proof {
                            assert(self.steps@.drop_last() =~= steps_before);
                        }
                        Ok(StructuralAction::Finish)
                    },
                    Err(e) => Err(StructuralError::Engine(e)),
                }
            },
            _ => Ok(StructuralAction::Draw),
        }
    }

    /// Takes the evaluation of a promoted child on all examples: it becomes the incumbent.
    pub fn on_full_evaluated(&mut self, full: &CandidateEval, mean: Mean) -> (r: StructuralAction)
        requires
            old(self).wf(),
            old(self).phase is Full,
            store::fits(full.rollouts@, old(self).num_examples as nat),
        ensures
            final(self).wf(),
            r is Draw,
            StructuralRun::stepped(*old(self), *final(self), 1, 0),
            final(self).program == old(self).phase->Full_trial.program,
            final(self).incumbent == old(self).phase->Full_trial.overlay,
            final(self).incumbent_row == old(self).phase->Full_trial.row,
            final(self).final_score == mean,
            final(self).edits@ == old(self).edits@.push(old(self).phase->Full_trial.edit),
            final(self).store@ == store::stored_after(
                store::stored_after(
                    old(self).store@,
                    full.rollouts@,
                    false,
                    full.rollouts@.len(),
                ),
                old(self).phase->Full_minibatch.rollouts@,
                true,
                old(self).phase->Full_minibatch.rollouts@.len(),
            ),
            final(self).steps@.last() == (StructuralStep {
                child_minibatch_score: Some(old(self).phase->Full_score),
                accepted: true,
                full_score: Some(mean),
                ..old(self).phase->Full_trial.step
            }),
    {
        let mut phase = StructuralPhase::Done;
        std::mem::swap(&mut phase, &mut self.phase);
        match phase {
            StructuralPhase::Full { trial, minibatch, score } => {
                proof {
                    store::lemma_stored_after(
                        self.store@,
                        full.rollouts@,
                        false,
                        full.rollouts@.len(),
                    );
                    let mid = store::stored_after(
                        self.store@,
                        full.rollouts@,
                        false,
                        full.rollouts@.len(),
                    );
                    store::lemma_stored_after(
                        mid,
                        minibatch.rollouts@,
                        true,
                        minibatch.rollouts@.len(),
                    );
                }
                store::write_rollouts(&mut self.store, full, false);
                store::write_rollouts(&mut self.store, &minibatch, true);
                let ghost steps_before = self.steps@;
                let mut step = trial.step;
                step.child_minibatch_score = Some(score);
                step.accepted = true;
                step.full_score = Some(mean.clone());
                self.final_score = mean;
                self.steps.push(step);
                proof {
                    assert(self.steps@.drop_last() =~= steps_before);
                }
                self.edits.push(trial.edit);
                self.accepted = self.accepted + 1;
                self.generation = self.generation + 1;
                self.program = trial.program;
                self.incumbent = trial.overlay;
                self.incumbent_row = trial.row;
                self.phase = StructuralPhase::Ready;
                StructuralAction::Draw
            },
            _ => StructuralAction::Draw,
        }
    }
}

/// A child that is rejected is not evaluated on all examples, and the program stays as it is.
pub proof fn rejected_edits_cost_no_full_evaluation(
    before: StructuralRun,
    after: StructuralRun,
    engine: Engine,
    lane: Lane,
    eval: CandidateEval,
    mean: Mean,
    r: Result<StructuralAction, StructuralError>,
)
    requires
        StructuralRun::after_minibatch(before, after, engine, lane, eval, mean, r),
        mean.key <= before.phase->Minibatch_trial.step.parent_minibatch_score.key,
    ensures
        !(r matches Ok(StructuralAction::Evaluate { .. })),
        StructuralRun::keeps_incumbent(before, after),
        after.accepted == before.accepted,
{
}

proof fn lemma_node_menu_has(nodes: Seq<EditableNode>, i: int, n: nat, j: int) -> (k: int)
    requires
        0 <= j < n <= nodes[i].legal_edits@.len(),
        offered(nodes[i], nodes[i].legal_edits@[j].kind),
    ensures
        0 <= k < node_menu(nodes, i, n).len(),
        node_menu(nodes, i, n)[k] == (i, j),
    decreases n,
{
    if j == n - 1 {
        node_menu(nodes, i, (n - 1) as nat).len() as int
    } else {
        lemma_node_menu_has(nodes, i, (n - 1) as nat, j)
    }
}

proof fn lemma_menu_has(nodes: Seq<EditableNode>, n: nat, i: int, j: int) -> (k: int)
    requires
        0 <= i < n <= nodes.len(),
        nodes[i].leaf is Some,
        0 <= j < nodes[i].legal_edits@.len(),
        offered(nodes[i], nodes[i].legal_edits@[j].kind),
    ensures
        0 <= k < menu_at(nodes, n).len(),
        menu_at(nodes, n)[k] == (i, j),
    decreases n,
{
    let before = menu_at(nodes, (n - 1) as nat);
    if i == n - 1 {
        before.len() + lemma_node_menu_has(nodes, i, nodes[i].legal_edits@.len(), j)
    } else {
        lemma_menu_has(nodes, (n - 1) as nat, i, j)
    }
}

/// Every legal edit of a leaf is on the menu, but for those that need free text and a second
/// reasoning field; and what is on the menu is a legal edit of a leaf.
pub proof fn every_legal_edit_is_on_the_menu(
    program: &EditableProgram,
    r: Vec<MenuEntry>,
    i: int,
    j: int,
)
    requires
        call_ensures(StructuralSearch::menu, (program,), r),
        0 <= i < program.nodes@.len(),
        program.nodes@[i].leaf is Some,
        0 <= j < program.nodes@[i].legal_edits@.len(),
        !(program.nodes@[i].legal_edits@[j].kind is SetStop),
        !(program.nodes@[i].legal_edits@[j].kind is SetInstructionDefault),
        program.nodes@[i].legal_edits@[j].kind is AugmentSig ==> forall|k: int|
            0 <= k < program.nodes@[i].field_names@.len() ==> (
            #[trigger] program.nodes@[i].field_names@[k])@ != "reasoning"@,
    ensures
        exists|k: int|
            0 <= k < r@.len() && (#[trigger] r@[k]).node == program.nodes@[i].node && r@[k].leaf@
                == program.nodes@[i].leaf->0@ && r@[k].kind
                == program.nodes@[i].legal_edits@[j].kind && r@[k].form@
                == program.nodes@[i].legal_edits@[j].form@,
{
    let k = lemma_menu_has(program.nodes@, program.nodes@.len(), i, j);
    assert(entry_of(
        r@[k],
        program.nodes@,
        menu_at(program.nodes@, program.nodes@.len())[k],
    ));
}

/// Nothing else is on the menu.
pub proof fn the_menu_holds_legal_edits_of_leaves_only(
    program: &EditableProgram,
    r: Vec<MenuEntry>,
    k: int,
)
    requires
        call_ensures(StructuralSearch::menu, (program,), r),
        0 <= k < r@.len(),
    ensures
        !(r@[k].kind is SetStop),
        !(r@[k].kind is SetInstructionDefault),
        exists|i: int, j: int|
            0 <= i < program.nodes@.len() && 0 <= j < program.nodes@[i].legal_edits@.len()
                && program.nodes@[i].leaf is Some && program.nodes@[i].leaf->0@ == r@[k].leaf@
                && program.nodes@[i].node == r@[k].node && (
            #[trigger] program.nodes@[i].legal_edits@[j]).kind == r@[k].kind,
{
    let at = menu_at(program.nodes@, program.nodes@.len())[k];
    assert(entry_of(r@[k], program.nodes@, at));
    assert(program.nodes@[at.0].legal_edits@[at.1].kind == r@[k].kind);
}

proof fn lemma_menu_line(tools: Seq<String>, entry: MenuEntry, option: nat)
    ensures
        text::has_text(
            menu_line(tools, entry, option),
            json::json_quote("option"@) + ":"@ + text::decimal(option),
        ),
        text::has_text(
            menu_line(tools, entry, option),
            json::json_quote("leaf"@) + ":"@ + json::json_quote(entry.leaf@),
        ),
        text::has_text(
            menu_line(tools, entry, option),
            json::json_quote("edit"@) + ":"@ + json::json_text(entry.form@),
        ),
{
    let members = seq![
        ("option"@, JsonView::Number(text::decimal(option))),
        ("leaf"@, JsonView::Str(entry.leaf@)),
        ("edit"@, entry.form@),
        ("note"@, JsonView::Str(note(tools, entry.kind))),
    ];
    crate::json_laws::lemma_member_is_written(members, 0);
    crate::json_laws::lemma_member_is_written(members, 1);
    crate::json_laws::lemma_member_is_written(members, 2);
}

/// The model reads the menu with every entry: the number it goes by, the leaf and the edit, in
/// the order of the menu.
pub proof fn every_entry_is_shown_with_its_number(
    program: &EditableProgram,
    menu: &Vec<MenuEntry>,
    r: String,
    i: int,
    j: int,
)
    requires
        call_ensures(StructuralSearch::render_menu, (program, menu), r),
        0 <= i < j < menu@.len(),
    ensures
        exists|a: int, x: Seq<char>, b: int, y: Seq<char>|
            a + x.len() < b && #[trigger] text::occurs_at(r@, x, a) && #[trigger] text::occurs_at(
                r@,
                y,
                b,
            ) && text::has_text(x, json::json_quote("option"@) + ":"@ + text::decimal(i as nat))
                && text::has_text(
                x,
                json::json_quote("leaf"@) + ":"@ + json::json_quote(menu@[i].leaf@),
            ) && text::has_text(
                x,
                json::json_quote("edit"@) + ":"@ + json::json_text(menu@[i].form@),
            ) && text::has_text(y, json::json_quote("option"@) + ":"@ + text::decimal(j as nat))
                && text::has_text(
                y,
                json::json_quote("leaf"@) + ":"@ + json::json_quote(menu@[j].leaf@),
            ) && text::has_text(
                y,
                json::json_quote("edit"@) + ":"@ + json::json_text(menu@[j].form@),
            ),
{
    let lines = menu_lines(program.tools@, menu@);
    reveal_strlit("\n");
    lemma_menu_line(program.tools@, menu@[i], i as nat);
    lemma_menu_line(program.tools@, menu@[j], j as nat);
    text_laws::lemma_join_at(lines, "\n"@, i);
    text_laws::lemma_join_at(lines, "\n"@, j);
    text_laws::lemma_offsets_grow(lines, "\n"@, i, j);
    let a = text_laws::offset(lines, "\n"@, i);
    let b = text_laws::offset(lines, "\n"@, j);
    assert(lines[i] == menu_line(program.tools@, menu@[i], i as nat));
    assert(lines[j] == menu_line(program.tools@, menu@[j], j as nat));
    assert(text::occurs_at(r@, lines[i], a));
    assert(text::occurs_at(r@, lines[j], b));
}

proof fn lemma_number_is_value(digits: Seq<char>)
    ensures
        number(digits) == text_laws::value_of(digits),
    decreases digits.len(),
{
    if digits.len() > 0 {
        lemma_number_is_value(digits.drop_last());
    }
}

proof fn lemma_first_digit(s: Seq<char>, from: int, at: int)
    requires
        0 <= from <= at < s.len(),
        text::is_ascii_digit(s[at]),
        forall|i: int| from <= i < at ==> !text::is_ascii_digit(#[trigger] s[i]),
    ensures
        first_digit(s, from) == at,
    decreases at - from,
{
    if from < at {
        assert(!text::is_ascii_digit(s[from]));
        lemma_first_digit(s, from + 1, at);
    }
}

proof fn lemma_digits_stop(s: Seq<char>, from: int, at: int)
    requires
        0 <= from <= at <= s.len(),
        forall|i: int| from <= i < at ==> text::is_ascii_digit(#[trigger] s[i]),
        at < s.len() ==> !text::is_ascii_digit(s[at]),
    ensures
        digits_end(s, from) == at,
    decreases at - from,
{
    if from < at {
        assert(text::is_ascii_digit(s[from]));
        lemma_digits_stop(s, from + 1, at);
    }
}

/// A reply chooses the option whose number stands first in it, whatever is said around it, and a
/// number that the menu does not have chooses nothing.
pub proof fn replies_choose_by_number(
    reply: &str,
    menu_len: usize,
    r: Option<usize>,
    front: Seq<char>,
    n: nat,
    rest: Seq<char>,
)
    requires
        call_ensures(StructuralSearch::parse_choice, (reply, menu_len), r),
        reply@ == front + text::decimal(n) + rest,
        forall|i: int| 0 <= i < front.len() ==> !('0' <= #[trigger] front[i] <= '9'),
        rest.len() > 0 ==> !('0' <= rest[0] <= '9'),
    ensures
        n < menu_len ==> r == Some(n as usize),
        n >= menu_len ==> r is None,
{
    let s = reply@;
    let d = text::decimal(n);
    text_laws::lemma_decimal_value(n);
    lemma_number_is_value(d);
    let from = front.len() as int;
    let to = from + d.len();
    assert forall|i: int| 0 <= i < from implies !text::is_ascii_digit(#[trigger] s[i]) by {
        assert(s[i] == front[i]);
    }
    assert forall|i: int| from <= i < to implies text::is_ascii_digit(#[trigger] s[i]) by {
        assert(s[i] == d[i - from]);
    }
    if to < s.len() {
        assert(s[to] == rest[0]);
    }
    assert(text::is_ascii_digit(s[from]));
    lemma_first_digit(s, 0, from);
    lemma_digits_stop(s, from, to);
    assert(s.subrange(from, to) =~= d);
}

/// A reply without a digit chooses nothing.
pub proof fn replies_without_a_number_choose_nothing(
    reply: &str,
    menu_len: usize,
    r: Option<usize>,
)
    requires
        call_ensures(StructuralSearch::parse_choice, (reply, menu_len), r),
        forall|i: int| 0 <= i < reply@.len() ==> !('0' <= #[trigger] reply@[i] <= '9'),
    ensures
        r is None,
{
    lemma_no_digit(reply@, 0);
}

proof fn lemma_no_digit(s: Seq<char>, from: int)
    requires
        0 <= from <= s.len(),
        forall|i: int| 0 <= i < s.len() ==> !('0' <= #[trigger] s[i] <= '9'),
    ensures
        first_digit(s, from) == s.len(),
    decreases s.len() - from,
{
    if from < s.len() {
        assert(!text::is_ascii_digit(s[from]));
        lemma_no_digit(s, from + 1);
    }
}

/// An edit is made at the node that its entry is of, and names the tools that the entry names; an
/// agent gets all tools of the program.
pub proof fn edits_are_made_where_the_menu_says(
    program: &EditableProgram,
    entry: &MenuEntry,
    r: Edit,
)
    requires
        !(entry.kind is SetStop),
        !(entry.kind is SetInstructionDefault),
        call_ensures(StructuralSearch::materialize, (program, entry), r),
    ensures
        entry.kind is AugmentSig <==> r is AugmentSig,
        entry.kind is SwapToAgent <==> r is SwapToAgent,
        entry.kind is SwapToPredict <==> r is SwapToPredict,
        entry.kind is WrapRetry <==> r is WrapRetry,
        entry.kind is Remove <==> r is Remove,
        entry.kind is AddTool <==> r is AddTool,
        entry.kind is RemoveTool <==> r is RemoveTool,
        r is AugmentSig ==> r->AugmentSig_leaf == entry.node,
        r is SwapToPredict ==> r->SwapToPredict_leaf == entry.node,
        r is WrapRetry ==> r->WrapRetry_node == entry.node && r->max_attempts == 2 && r->feedback,
        r is Remove ==> r->Remove_node == entry.node,
        entry.kind matches EditKind::AddTool { tool } ==> r->AddTool_agent == entry.node
            && r->AddTool_tool == tool,
        entry.kind matches EditKind::RemoveTool { tool } ==> r->RemoveTool_agent == entry.node
            && r->RemoveTool_tool == tool,
        r is SwapToAgent ==> r->SwapToAgent_leaf == entry.node && r->tools@.len()
            == program.tools@.len() && forall|i: int|
            0 <= i < program.tools@.len() ==> (#[trigger] r->tools@[i]) == i,
{
    assert(program.tools@.len() == program.tools.len());
}

proof fn lemma_feedback_has(store: Seq<Option<Stored>>, minibatch: Seq<usize>, n: nat, i: int)
    requires
        0 <= i < n <= minibatch.len(),
        store[minibatch[i] as int] is Some,
    ensures
        text::has_text(
            feedback_text(store, minibatch, n),
            text::decimal((minibatch[i] + 1) as nat) + ": "@ + summary::score_line(
                store[minibatch[i] as int]->0.eval,
            ),
        ),
    decreases n,
{
    let before = feedback_text(store, minibatch, (n - 1) as nat);
    let idx = minibatch[n - 1];
    let all = feedback_text(store, minibatch, n);
    let want = text::decimal((minibatch[i] + 1) as nat) + ": "@ + summary::score_line(
        store[minibatch[i] as int]->0.eval,
    );
    match store[idx as int] {
        None => {
            lemma_feedback_has(store, minibatch, (n - 1) as nat, i);
        },
        Some(s) => {
            let e = match s.trace {
                Some(t) => summary::errors_text(t.spans@, t.spans@.len()),
                None => Seq::empty(),
            };
            let mine = text::decimal((idx + 1) as nat) + ": "@ + summary::score_line(s.eval);
            text_laws::lemma_grouped(before, text::decimal((idx + 1) as nat), ": "@);
            text_laws::lemma_grouped(
                before,
                text::decimal((idx + 1) as nat) + ": "@,
                summary::score_line(s.eval),
            );
            assert(all == before + mine + e);
            if i == n - 1 {
                text_laws::lemma_inside(before, mine, e);
            } else {
                lemma_feedback_has(store, minibatch, (n - 1) as nat, i);
                text_laws::lemma_grouped(before, mine, e);
                text_laws::lemma_ends(before, mine + e);
                text_laws::lemma_within(all, before, want);
            }
        },
    }
}

/// The choosing model reads the score of every known example of the minibatch, and what the metric
/// said of it.
pub proof fn feedback_on_the_minibatch_is_shown(
    store: &RolloutStore,
    minibatch: &[usize],
    r: String,
    i: int,
)
    requires
        call_ensures(summarize_feedback, (store, minibatch), r),
        0 <= i < minibatch@.len(),
        store@[minibatch@[i] as int] is Some,
    ensures
        text::has_text(
            r@,
            text::trim_end(store@[minibatch@[i] as int]->0.eval.score_text@),
        ),
        store@[minibatch@[i] as int]->0.eval.feedback matches Some(f) ==> text::has_text(
            r@,
            text::trim_end(f@),
        ),
{
    let e = store@[minibatch@[i] as int]->0.eval;
    let all = feedback_text(store@, minibatch@, minibatch@.len());
    let number = text::decimal((minibatch@[i] + 1) as nat) + ": "@;
    lemma_feedback_has(store@, minibatch@, minibatch@.len(), i);
    text_laws::lemma_ends(number, summary::score_line(e));
    text_laws::lemma_within(all, number + summary::score_line(e), summary::score_line(e));
    summary::lemma_score_line_holds(e);
    text_laws::lemma_within(all, summary::score_line(e), e.score_text@);
    text_laws::lemma_trim_end_keeps_text(all, e.score_text@);
    if let Some(f) = e.feedback {
        text_laws::lemma_within(all, summary::score_line(e), f@);
        text_laws::lemma_trim_end_keeps_text(all, f@);
    }
}

/// The edit that a model chose by its number is the one that is made.
pub proof fn chosen_edits_are_made(
    run: &mut StructuralRun,
    engine: &mut Engine,
    reply: String,
    rng: &mut StdRng,
    r: StructuralAction,
    n: nat,
)
    requires
        old(run).wf(),
        old(run).phase is Choosing,
        call_ensures(StructuralRun::on_chosen, (run, engine, Some(reply), rng), r),
        reply@ == text::decimal(n),
        n < old(run).phase->Choosing_menu@.len(),
    ensures
        r is Apply,
        final(run).phase is Editing,
        final(run).phase->Editing_step.leaf@ == old(run).phase->Choosing_menu@[n as int].leaf@,
        final(run).phase->Editing_step.parent_minibatch_score
            == old(run).phase->Choosing_threshold,
        final(run).phase->Editing_minibatch@ == old(run).phase->Choosing_minibatch@,
        old(run).phase->Choosing_menu@[n as int].kind matches EditKind::AddTool { tool }
            ==> *r->edit == (Edit::AddTool {
            agent: old(run).phase->Choosing_menu@[n as int].node,
            tool,
        }),
        old(run).phase->Choosing_menu@[n as int].kind is Remove ==> *r->edit == (Edit::Remove {
            node: old(run).phase->Choosing_menu@[n as int].node,
        }),
        old(run).phase->Choosing_menu@[n as int].kind is AugmentSig ==> *r->edit
            == (Edit::AugmentSig { leaf: old(run).phase->Choosing_menu@[n as int].node }),
        final(run).program == old(run).program,
        final(run).incumbent == old(run).incumbent,
{
    let option = choose|option: int| #[trigger]
        StructuralRun::applies(
            *old(run),
            *final(run),
            old(run).phase->Choosing_minibatch@,
            old(run).phase->Choosing_menu@,
            old(run).phase->Choosing_threshold,
            option,
            r,
        ) && (Some(reply) is Some ==> match first_number(Some(reply)->0@) {
            Some(n) => n < old(run).phase->Choosing_menu@.len() ==> option == n,
            None => true,
        });
    let s = reply@;
    text_laws::lemma_decimal_value(n);
    lemma_number_is_value(s);
    assert forall|i: int| 0 <= i < s.len() implies text::is_ascii_digit(#[trigger] s[i]) by {
        assert('0' <= text::decimal(n)[i] <= '9');
    }
    lemma_first_digit(s, 0, 0);
    lemma_digits_stop(s, 0, s.len() as int);
    assert(s.subrange(0, s.len() as int) =~= s);
}

/// A child is tried on all examples only where it beats the incumbent on the minibatch; one that
/// does not is rejected, and program, incumbent, edits and score stay as they are.
pub proof fn only_better_children_go_on(
    run: &mut StructuralRun,
    engine: &Engine,
    lane: &Lane,
    eval: CandidateEval,
    mean: Mean,
    r: Result<StructuralAction, StructuralError>,
)
    requires
        old(run).wf(),
        old(run).phase is Minibatch,
        call_ensures(StructuralRun::on_minibatch_evaluated, (run, engine, lane, eval, mean), r),
    ensures
        final(run).program == old(run).program,
        final(run).incumbent == old(run).incumbent,
        final(run).edits@ == old(run).edits@,
        final(run).accepted == old(run).accepted,
        final(run).final_score == old(run).final_score,
        final(run).phase is Full ==> mean.key
            > old(run).phase->Minibatch_trial.step.parent_minibatch_score.key,
        final(run).phase is Full ==> final(run).phase->Full_trial
            == old(run).phase->Minibatch_trial,
        mean.key <= old(run).phase->Minibatch_trial.step.parent_minibatch_score.key
            ==> final(run).rejected == old(run).rejected + 1 && !final(run).steps@.last().accepted
            && final(run).steps@.last().child_minibatch_score == Some(mean),
{
}

/// A child that was tried on all examples takes the place of the incumbent, and its edit is kept
/// behind those before.
pub proof fn promoted_children_become_the_incumbent(
    run: &mut StructuralRun,
    full: &CandidateEval,
    mean: Mean,
    r: StructuralAction,
)
    requires
        old(run).wf(),
        old(run).phase is Full,
        call_ensures(StructuralRun::on_full_evaluated, (run, full, mean), r),
    ensures
        final(run).program == old(run).phase->Full_trial.program,
        final(run).incumbent == old(run).phase->Full_trial.overlay,
        final(run).incumbent_row == old(run).phase->Full_trial.row,
        final(run).final_score == mean,
        final(run).accepted == old(run).accepted + 1,
        final(run).edits@ == old(run).edits@.push(old(run).phase->Full_trial.edit),
        final(run).steps@.last().accepted,
        final(run).steps@.last().full_score == Some(mean),
        final(run).steps@.drop_last() == old(run).steps@,
{
}

/// An edit that could not be made is written down with the reason, and changes nothing else.
pub proof fn failed_edits_are_written_down(
    run: &mut StructuralRun,
    stage: &str,
    error: &str,
    r: StructuralAction,
)
    requires
        old(run).wf(),
        old(run).phase is Editing,
        call_ensures(StructuralRun::on_edit_failed, (run, stage, error), r),
    ensures
        final(run).program == old(run).program,
        final(run).incumbent == old(run).incumbent,
        final(run).edits@ == old(run).edits@,
        final(run).final_score == old(run).final_score,
        final(run).accepted == old(run).accepted,
        final(run).rejected == old(run).rejected + 1,
        final(run).generation == old(run).generation + 1,
        final(run).steps@.drop_last() == old(run).steps@,
        !final(run).steps@.last().accepted,
        final(run).steps@.last().edit == old(run).phase->Editing_step.edit,
        final(run).steps@.last().rejection is Some,
        text::has_suffix(final(run).steps@.last().rejection->0@, error@),
        text::has_prefix(final(run).steps@.last().rejection->0@, stage@),
{
    text_laws::lemma_ends(stage@ + " failed: "@, error@);
    text_laws::lemma_grouped(stage@, " failed: "@, error@);
    text_laws::lemma_ends(stage@, " failed: "@ + error@);
}

/// A choosing model reads the program as it is, every entry of the menu, the mean to beat and the
/// score of every example of the minibatch.
pub proof fn choosing_models_read_program_menu_and_scores(
    run: &mut StructuralRun,
    engine: &mut Engine,
    threshold: Mean,
    rng: &mut StdRng,
    prompt: ChooseEdit,
    i: int,
    k: int,
)
    requires
        old(run).wf(),
        old(run).phase is Incumbent,
        call_ensures(
            StructuralRun::on_incumbent_evaluated,
            (run, engine, threshold, rng),
            StructuralAction::Choose { prompt },
        ),
        0 <= i < old(run).phase->Incumbent_menu@.len(),
        0 <= k < old(run).phase->Incumbent_minibatch@.len(),
    ensures
        prompt.program_source@ == old(run).program.source@,
        text::has_text(
            prompt.edit_menu@,
            json::json_quote("option"@) + ":"@ + text::decimal(i as nat),
        ),
        text::has_text(
            prompt.edit_menu@,
            json::json_quote("leaf"@) + ":"@ + json::json_quote(
                old(run).phase->Incumbent_menu@[i].leaf@,
            ),
        ),
        text::has_text(
            prompt.edit_menu@,
            json::json_quote("edit"@) + ":"@ + json::json_text(
                old(run).phase->Incumbent_menu@[i].form@,
            ),
        ),
        text::has_text(prompt.execution_feedback@, threshold.text@),
        text::has_text(
            prompt.execution_feedback@,
            text::trim_end(
                old(run).store@[old(run).phase->Incumbent_minibatch@[k] as int]->0.eval.score_text@,
            ),
        ),
        final(run).phase is Choosing,
        final(run).phase->Choosing_threshold == threshold,
        final(run).phase->Choosing_menu@ == old(run).phase->Incumbent_menu@,
{
    if old(run).config.reflects {
        let menu = old(run).phase->Incumbent_menu@;
        let minibatch = old(run).phase->Incumbent_minibatch@;
        let lines = menu_lines(old(run).program.tools@, menu);
        let line = menu_line(old(run).program.tools@, menu[i], i as nat);
        lemma_menu_line(old(run).program.tools@, menu[i], i as nat);
        text_laws::lemma_join_at(lines, "\n"@, i);
        assert(lines[i] == line);
        assert(text::has_text(prompt.edit_menu@, line));
        text_laws::lemma_within(
            prompt.edit_menu@,
            line,
            json::json_quote("option"@) + ":"@ + text::decimal(i as nat),
        );
        text_laws::lemma_within(
            prompt.edit_menu@,
            line,
            json::json_quote("leaf"@) + ":"@ + json::json_quote(menu[i].leaf@),
        );
        text_laws::lemma_within(
            prompt.edit_menu@,
            line,
            json::json_quote("edit"@) + ":"@ + json::json_text(menu[i].form@),
        );
        assert(minibatch[k] < old(run).num_examples);
        assert(old(run).store@[minibatch[k] as int] is Some);
        let e = old(run).store@[minibatch[k] as int]->0.eval;
        let all = feedback_text(old(run).store@, minibatch, minibatch.len());
        let number = text::decimal((minibatch[k] + 1) as nat) + ": "@;
        lemma_feedback_has(old(run).store@, minibatch, minibatch.len(), k);
        text_laws::lemma_ends(number, summary::score_line(e));
        text_laws::lemma_within(all, number + summary::score_line(e), summary::score_line(e));
        summary::lemma_score_line_holds(e);
        text_laws::lemma_within(all, summary::score_line(e), e.score_text@);
        text_laws::lemma_trim_end_keeps_text(all, e.score_text@);
        let front = "Incumbent minibatch mean: "@;
        let rest = text::trim_end(all);
        text_laws::lemma_ends(front + threshold.text@ + "\n"@, rest);
        text_laws::lemma_within(
            prompt.execution_feedback@,
            rest,
            text::trim_end(e.score_text@),
        );
        text_laws::lemma_grouped(front + threshold.text@, "\n"@, rest);
        text_laws::lemma_inside(front, threshold.text@, "\n"@ + rest);
    }
}

/// A child is tried with its own overlay, on the minibatch that its edit was chosen on, and goes
/// through the trial as it was loaded.
pub proof fn loaded_children_are_tried(
    run: &mut StructuralRun,
    engine: &mut Engine,
    lane: &Lane,
    program: EditableProgram,
    overlay: Overlay,
    plan: BatchPlan,
)
    requires
        old(run).wf(),
        old(run).phase is Editing,
        call_ensures(
            StructuralRun::on_child_loaded,
            (run, engine, lane, program, overlay),
            Ok::<StructuralAction, StructuralError>(StructuralAction::Evaluate { plan }),
        ),
    ensures
        plan.indices@ == old(run).phase->Editing_minibatch@,
        plan.candidates@.len() == 1,
        ({
            let row = plan.candidates@[0];
            &&& row < final(engine).payloads@.len()
            &&& final(engine).payloads@[row as int] is Overlay
            &&& final(engine).ledger.hashes@[row as int] == overlay.hash
            &&& final(engine).payloads@.len() > old(engine).payloads@.len() ==> final(engine).payloads@[row as int] == CandidatePayload::Overlay(overlay)
            &&& final(run).phase is Minibatch
            &&& final(run).phase->Minibatch_trial.row == row
            &&& final(run).phase->Minibatch_trial.program == program
            &&& final(run).phase->Minibatch_trial.overlay == overlay
            &&& final(run).phase->Minibatch_trial.edit == old(run).phase->Editing_edit
        }),
        final(run).program == old(run).program,
        final(run).incumbent == old(run).incumbent,
{
}

/// A run that its budget cut short says how many rollouts it needed, and one that the engine
/// stopped says what the engine said.
pub proof fn failures_say_what_was_needed(
    e: &StructuralError,
    r: String,
    inner: &EngineError,
    said: String,
)
    requires
        call_ensures(StructuralError::message, (e,), r),
        call_ensures(EngineError::message, (inner,), said),
    ensures
        *e matches StructuralError::BudgetTooSmall { needed } ==> text::has_text(
            r@,
            text::decimal(needed as nat),
        ),
        *e == StructuralError::Engine(*inner) ==> r@ == said@,
{
    match *e {
        StructuralError::BudgetTooSmall { needed } => {
            text_laws::lemma_inside(
                "budget too small for the baseline pass ("@,
                text::decimal(needed as nat),
                " rollouts needed)"@,
            );
        },
        _ => {},
    }
}

/// The limits of a search are those of its engine, and it evaluates with as many at a time as it
/// says, with one where it says none.
pub proof fn limits_are_those_of_the_search(g: &StructuralSearch, r: EngineConfig)
    requires
        call_ensures(StructuralSearch::engine_config, (g,), r),
    ensures
        r.budget.max_metric_calls == g.max_rollouts,
        r.budget.max_lm_calls == g.max_lm_calls,
        r.budget.max_tokens is None,
        g.eval_concurrency > 0 ==> r.concurrency == g.eval_concurrency,
        g.eval_concurrency == 0 ==> r.concurrency == 1,
{
}

/// A generation begins with the incumbent, evaluated on a minibatch of its size, and with a menu of
/// the program as it is.
pub proof fn generations_begin_with_the_incumbent(
    run: &mut StructuralRun,
    engine: &Engine,
    lane: &Lane,
    rng: &mut StdRng,
    plan: BatchPlan,
    i: int,
)
    requires
        old(run).wf(),
        old(run).phase is Ready,
        call_ensures(
            StructuralRun::next_generation,
            (run, engine, lane, rng),
            Ok::<StructuralAction, StructuralError>(StructuralAction::Evaluate { plan }),
        ),
    ensures
        old(run).generation < old(run).config.num_iterations,
        plan.candidates@ == seq![old(run).incumbent_row],
        final(run).phase is Incumbent,
        plan.indices@ == final(run).phase->Incumbent_minibatch@,
        0 <= i < plan.indices@.len() ==> plan.indices@[i] < old(run).num_examples,
        0 < old(run).config.minibatch_size <= old(run).num_examples ==> plan.indices@.len() == old(run).config.minibatch_size,
        final(run).program == old(run).program,
        final(run).incumbent == old(run).incumbent,
        final(run).phase->Incumbent_menu@.len() > 0,
{
}

} // verus!
