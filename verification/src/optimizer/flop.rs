//! An optimizer that restructures the graph of a program, step by step, by a plan.

use vstd::prelude::*;

use crate::json;
use crate::json::{Json, JsonMap, JsonView};
use crate::optimizer::flop_tools;
use crate::optimizer::flop_tools::{
    added_fields, added_fields_json, described_json, parameters_json, split_metadata,
    split_points_json, text_list_json, FieldDef, JsonSignature, Modification, SplitPoint,
};
use crate::predictors::tool_schema::ToolDefinition;
use crate::text;
use crate::text_laws;

verus! {

/// Why a tool failed.
#[derive(Debug)]
pub struct ToolError(pub String);

impl ToolError {
    pub fn message(&self) -> (r: String)
        ensures
            r@ == "Tool error: "@ + self.0@,
    {
        let mut out = "Tool error: ".to_owned();
        out.append(self.0.as_str());
        out
    }
}

/// A node of a graph: one that predicts, or another.
#[derive(Debug)]
pub enum NodeType {
    Predict { signature: JsonSignature, signature_name: String },
    Other,
}

/// The graph of a program.
#[derive(Debug)]
pub struct Graph {
    pub nodes: Vec<NodeType>,
}

/// How many of the first `n` nodes predict.
pub open spec fn predict_nodes(nodes: Seq<NodeType>, n: nat) -> nat
    decreases n,
{
    if n == 0 || n > nodes.len() {
        0
    } else {
        predict_nodes(nodes, (n - 1) as nat) + (if nodes[n - 1] is Predict {
            1nat
        } else {
            0nat
        })
    }
}

impl Graph {
    /// How many nodes predict.
    pub fn predict_count(&self) -> (r: usize)
        ensures
            r == predict_nodes(self.nodes@, self.nodes@.len()),
    {
        let mut count: usize = 0;
        let mut i: usize = 0;
        while i < self.nodes.len()
            invariant
                i <= self.nodes@.len(),
                count <= i,
                count == predict_nodes(self.nodes@, i as nat),
            decreases self.nodes@.len() - i,
        {
            match &self.nodes[i] {
                NodeType::Predict { .. } => {
                    count += 1;
                },
                NodeType::Other => {},
            }
            i += 1;
        }
        count
    }
}

fn texts_of_numbers(ids: &Vec<usize>) -> (r: String)
    ensures
        r@ == number_list(ids@),
{
    let mut parts: Vec<String> = Vec::new();
    let mut i: usize = 0;
    while i < ids.len()
        invariant
            i <= ids@.len(),
            parts@.len() == i,
            forall|k: int|
                0 <= k < i ==> (#[trigger] parts@[k])@ == text::decimal(ids@[k] as nat),
        decreases ids@.len() - i,
    {
        parts.push(text::decimal_string(ids[i] as u64));
        i += 1;
    }
    proof {
        assert(text::views(parts@) =~= Seq::new(
            ids@.len(),
            |k: int| text::decimal(ids@[k] as nat),
        ));
    }
    let joined = text::join_strs(&parts, ", ");
    let mut out = "[".to_owned();
    out.append(joined.as_str());
    out.append("]");
    out
}

/// Numbers in brackets.
pub open spec fn number_list(ids: Seq<usize>) -> Seq<char> {
    "["@ + text::join(Seq::new(ids.len(), |i: int| text::decimal(ids[i] as nat)), ", "@) + "]"@
}

/// A tool that splits a node.
#[derive(Clone, Copy, Debug, PartialEq, Eq, Structural)]
pub struct SplitNodeTool;

impl SplitNodeTool {
    pub fn definition(&self) -> (r: ToolDefinition)
        ensures
            r.name@ == "split_node"@,
            r.description@ == "Splits a Predict node into multiple sequential Predict nodes"@,
            r.parameters@ == flop_tools::parameters_of(
                seq![
                    (
                        "node_id"@,
                        flop_tools::described("integer"@, "ID of the node to split"@),
                    ),
                    ("split_points"@, flop_tools::list_of(flop_tools::split_point_schema())),
                ],
                seq![JsonView::Str("node_id"@), JsonView::Str("split_points"@)],
            ),
    {
        let mut properties: JsonMap = Vec::new();
        properties.push(
            ("node_id".to_owned(), described_json("integer", "ID of the node to split")),
        );
        properties.push(("split_points".to_owned(), split_points_json()));
        let mut required: Vec<Json> = Vec::new();
        required.push(Json::Str("node_id".to_owned()));
        required.push(Json::Str("split_points".to_owned()));
        proof {
            assert(json::members_view(properties@) =~= seq![
                ("node_id"@, flop_tools::described("integer"@, "ID of the node to split"@)),
                ("split_points"@, flop_tools::list_of(flop_tools::split_point_schema())),
            ]);
            assert(json::items_view(required@) =~= seq![
                JsonView::Str("node_id"@),
                JsonView::Str("split_points"@),
            ]);
        }
        ToolDefinition {
            name: "split_node".to_owned(),
            description: "Splits a Predict node into multiple sequential Predict nodes".to_owned(),
            parameters: parameters_json(properties, required),
        }
    }

    /// The parts as they are handed on to the graph.
    pub fn request(&self, points: &Vec<SplitPoint>) -> (r: Vec<Json>)
        ensures
            r@.len() == points@.len(),
            forall|i: int|
                0 <= i < r@.len() ==> (#[trigger] r@[i])@ == flop_tools::point_json(points@[i]),
    {
        split_metadata(points)
    }

    /// The reply, by what the graph did: the new nodes, or why it failed.
    pub fn reply(&self, node_id: usize, split: Result<Vec<usize>, String>) -> (r: Result<
        String,
        ToolError,
    >)
        ensures
            match split {
                Ok(ids) => r matches Ok(t) && t@ == "Successfully split node "@ + text::decimal(
                    node_id as nat,
                ) + " into nodes "@ + number_list(ids@),
                Err(e) => r matches Err(t) && t.0 == e,
            },
    {
        match split {
            Ok(ids) => {
                let mut out = "Successfully split node ".to_owned();
                text::push_decimal(&mut out, node_id as u64);
                out.append(" into nodes ");
                let list = texts_of_numbers(&ids);
                out.append(list.as_str());
                Ok(out)
            },
            Err(e) => Err(ToolError(e)),
        }
    }
}

/// A tool that fuses nodes.
#[derive(Clone, Copy, Debug, PartialEq, Eq, Structural)]
pub struct FuseNodeTool;

impl FuseNodeTool {
    pub fn definition(&self) -> (r: ToolDefinition)
        ensures
            r.name@ == "fuse_nodes"@,
            r.description@ == "Fuses multiple Predict nodes into one"@,
            r.parameters@ == flop_tools::parameters_of(
                seq![
                    ("node_ids"@, ids_schema()),
                    (
                        "merged_name"@,
                        flop_tools::described("string"@, "Name for the merged node"@),
                    ),
                ],
                seq![JsonView::Str("node_ids"@), JsonView::Str("merged_name"@)],
            ),
    {
        let mut kind: JsonMap = Vec::new();
        kind.push(("type".to_owned(), Json::Str("integer".to_owned())));
        proof {
            assert(json::members_view(kind@) =~= seq![("type"@, JsonView::Str("integer"@))]);
        }
        let items = json::object(kind);
        let mut ids: JsonMap = Vec::new();
        ids.push(("type".to_owned(), Json::Str("array".to_owned())));
        ids.push(("items".to_owned(), items));
        ids.push(("description".to_owned(), Json::Str("IDs of nodes to fuse".to_owned())));
        proof {
            assert(json::members_view(ids@) =~= seq![
                ("type"@, JsonView::Str("array"@)),
                ("items"@, flop_tools::of_kind("integer"@)),
                ("description"@, JsonView::Str("IDs of nodes to fuse"@)),
            ]);
        }
        let mut properties: JsonMap = Vec::new();
        properties.push(("node_ids".to_owned(), json::object(ids)));
        properties.push(
            ("merged_name".to_owned(), described_json("string", "Name for the merged node")),
        );
        let mut required: Vec<Json> = Vec::new();
        required.push(Json::Str("node_ids".to_owned()));
        required.push(Json::Str("merged_name".to_owned()));
        proof {
            assert(json::members_view(properties@) =~= seq![
                ("node_ids"@, ids_schema()),
                ("merged_name"@, flop_tools::described("string"@, "Name for the merged node"@)),
            ]);
            assert(json::items_view(required@) =~= seq![
                JsonView::Str("node_ids"@),
                JsonView::Str("merged_name"@),
            ]);
        }
        ToolDefinition {
            name: "fuse_nodes".to_owned(),
            description: "Fuses multiple Predict nodes into one".to_owned(),
            parameters: parameters_json(properties, required),
        }
    }

    /// The reply, by what the graph did: the new node, or why it failed.
    pub fn reply(&self, node_ids: &Vec<usize>, fused: Result<usize, String>) -> (r: Result<
        String,
        ToolError,
    >)
        ensures
            match fused {
                Ok(id) => r matches Ok(t) && t@ == "Successfully fused nodes "@ + number_list(
                    node_ids@,
                ) + " into node "@ + text::decimal(id as nat),
                Err(e) => r matches Err(t) && t.0 == e,
            },
    {
        match fused {
            Ok(id) => {
                let mut out = "Successfully fused nodes ".to_owned();
                let list = texts_of_numbers(node_ids);
                out.append(list.as_str());
                out.append(" into node ");
                text::push_decimal(&mut out, id as u64);
                Ok(out)
            },
            Err(e) => Err(ToolError(e)),
        }
    }
}

/// The schema of a list of nodes.
pub open spec fn ids_schema() -> JsonView {
    JsonView::Object(
        seq![
            ("type"@, JsonView::Str("array"@)),
            ("items"@, flop_tools::of_kind("integer"@)),
            ("description"@, JsonView::Str("IDs of nodes to fuse"@)),
        ],
    )
}

/// What is to be changed in a node.
#[derive(Debug)]
pub struct ModifyNodeArgs {
    pub node_id: usize,
    pub new_instruction: Option<String>,
    pub add_inputs: Option<Vec<FieldDef>>,
    pub add_outputs: Option<Vec<FieldDef>>,
    pub remove_fields: Option<Vec<String>>,
}

/// A tool that changes the signature of a node.
#[derive(Clone, Copy, Debug, PartialEq, Eq, Structural)]
pub struct ModifyNodeTool;

/// The fields are those that are to be added, where a list of them is given.
pub open spec fn adds_all(
    out: Option<JsonMap>,
    fields: Option<Vec<FieldDef>>,
    side: Seq<char>,
) -> bool {
    match fields {
        Some(f) => out matches Some(m) && json::members_view(m@) == flop_tools::added(
            f@,
            side,
            false,
        ),
        None => out is None,
    }
}

fn all_added(fields: &Option<Vec<FieldDef>>, side: &str) -> (r: Option<JsonMap>)
    ensures
        adds_all(r, *fields, side@),
{
    match fields {
        Some(f) => Some(added_fields(f, side, false)),
        None => None,
    }
}

impl ModifyNodeTool {
    pub fn definition(&self) -> (r: ToolDefinition)
        ensures
            r.name@ == "modify_node"@,
            r.description@ == "Modifies a Predict node's signature"@,
            r.parameters@ == flop_tools::parameters_of(
                seq![
                    (
                        "node_id"@,
                        flop_tools::described("integer"@, "ID of the node to modify"@),
                    ),
                    (
                        "new_instruction"@,
                        flop_tools::described("string"@, "New instruction text"@),
                    ),
                    ("add_inputs"@, flop_tools::list_of(flop_tools::added_field_schema())),
                    ("add_outputs"@, flop_tools::list_of(flop_tools::added_field_schema())),
                    (
                        "remove_fields"@,
                        flop_tools::list_of(flop_tools::of_kind("string"@)),
                    ),
                ],
                seq![JsonView::Str("node_id"@)],
            ),
    {
        let mut properties: JsonMap = Vec::new();
        properties.push(
            ("node_id".to_owned(), described_json("integer", "ID of the node to modify")),
        );
        properties.push(
            ("new_instruction".to_owned(), described_json("string", "New instruction text")),
        );
        properties.push(("add_inputs".to_owned(), added_fields_json()));
        properties.push(("add_outputs".to_owned(), added_fields_json()));
        properties.push(("remove_fields".to_owned(), text_list_json()));
        let mut required: Vec<Json> = Vec::new();
        required.push(Json::Str("node_id".to_owned()));
        proof {
            assert(json::members_view(properties@) =~= seq![
                ("node_id"@, flop_tools::described("integer"@, "ID of the node to modify"@)),
                ("new_instruction"@, flop_tools::described("string"@, "New instruction text"@)),
                ("add_inputs"@, flop_tools::list_of(flop_tools::added_field_schema())),
                ("add_outputs"@, flop_tools::list_of(flop_tools::added_field_schema())),
                ("remove_fields"@, flop_tools::list_of(flop_tools::of_kind("string"@))),
            ]);
            assert(json::items_view(required@) =~= seq![JsonView::Str("node_id"@)]);
        }
        ToolDefinition {
            name: "modify_node".to_owned(),
            description: "Modifies a Predict node's signature".to_owned(),
            parameters: parameters_json(properties, required),
        }
    }

    /// The change that is asked for. Only a node that is there and predicts can be changed.
    pub fn request(&self, graph: &Graph, args: ModifyNodeArgs) -> (r: Result<
        Modification,
        ToolError,
    >)
        ensures
            if args.node_id >= graph.nodes@.len() {
                r matches Err(e) && e.0@ == "Node "@ + text::decimal(args.node_id as nat)
                    + " not found"@
            } else if graph.nodes@[args.node_id as int] is Other {
                r matches Err(e) && e.0@ == "Node "@ + text::decimal(args.node_id as nat)
                    + " is not a Predict node"@
            } else {
                r matches Ok(m) && m.instruction == args.new_instruction && m.remove_fields
                    == args.remove_fields && adds_all(m.add_inputs, args.add_inputs, "input"@)
                    && adds_all(m.add_outputs, args.add_outputs, "output"@)
            },
    {
        if args.node_id >= graph.nodes.len() {
            let mut out = "Node ".to_owned();
            text::push_decimal(&mut out, args.node_id as u64);
            out.append(" not found");
            return Err(ToolError(out));
        }
        match &graph.nodes[args.node_id] {
            NodeType::Predict { .. } => {},
            NodeType::Other => {
                let mut out = "Node ".to_owned();
                text::push_decimal(&mut out, args.node_id as u64);
                out.append(" is not a Predict node");
                return Err(ToolError(out));
            },
        }
        let add_inputs = all_added(&args.add_inputs, "input");
        let add_outputs = all_added(&args.add_outputs, "output");
        Ok(
            Modification {
                instruction: args.new_instruction,
                add_inputs,
                add_outputs,
                remove_fields: args.remove_fields,
            },
        )
    }

    /// Puts the changed signature into the node, whose name says that it was changed.
    pub fn apply(&self, graph: &mut Graph, node_id: usize, modified: JsonSignature) -> (r: String)
        requires
            node_id < old(graph).nodes@.len(),
            old(graph).nodes@[node_id as int] is Predict,
        ensures
            r@ == "Successfully modified node "@ + text::decimal(node_id as nat),
            final(graph).nodes@.len() == old(graph).nodes@.len(),
            forall|i: int|
                0 <= i < old(graph).nodes@.len() && i != node_id ==> #[trigger]
                    final(graph).nodes@[i] == old(graph).nodes@[i],
            final(graph).nodes@[node_id as int] matches NodeType::Predict {
                signature,
                signature_name,
            } && signature == modified && signature_name@
                == old(graph).nodes@[node_id as int]->signature_name@ + "_modified"@,
    {
        let mut name = match &graph.nodes[node_id] {
            NodeType::Predict { signature_name, .. } => signature_name.clone(),
            NodeType::Other => String::new(),
        };
        name.append("_modified");
        graph.nodes.set(
            node_id,
            NodeType::Predict { signature: modified, signature_name: name },
        );
        let mut out = "Successfully modified node ".to_owned();
        text::push_decimal(&mut out, node_id as u64);
        out
    }
}

/// The settings of the optimizer.
#[derive(Debug)]
pub struct FLOP {
    pub task_description: String,
    pub max_steps: usize,
}

impl FLOP {
    /// The settings for a task, with the standard number of steps.
    pub fn new(task_description: String) -> (r: Self)
        ensures
            r.task_description == task_description,
            r.max_steps == 5,
    {
        FLOP { task_description, max_steps: 5 }
    }

    /// An example is needed to trace the program.
    pub fn check_trainset(&self, examples: usize) -> (r: Result<(), String>)
        ensures
            match r {
                Ok(_) => examples > 0,
                Err(e) => examples == 0 && e@
                    == "FLOP requires at least one example in trainset to trace execution"@,
            },
    {
        if examples == 0 {
            Err("FLOP requires at least one example in trainset to trace execution".to_owned())
        } else {
            Ok(())
        }
    }
}

/// What the model that restructures the graph is told.
#[derive(Debug)]
pub struct DagRequest {
    pub reference_plan: String,
    pub current_graph: String,
    pub history: String,
}

/// A run between two replies. `step` counts the replies.
#[derive(Debug)]
pub struct FlopRun {
    pub reference_plan: String,
    pub max_steps: usize,
    pub step: usize,
    pub history: Vec<String>,
    pub done: bool,
}

/// What was done so far, as the model is told of it.
pub open spec fn history_text(history: Seq<Seq<char>>) -> Seq<char> {
    if history.len() == 0 {
        "No actions taken yet."@
    } else {
        text::join(history, "\n"@)
    }
}

pub open spec fn history_line(step: nat, thought: Seq<char>, status: Seq<char>) -> Seq<char> {
    "Step "@ + text::decimal(step) + ": Thought: "@ + thought + " | Status: "@ + status
}

/// A reply ends the run when it says so, but not at the first step while the graph is small.
pub open spec fn ends_run(step: nat, status: Seq<char>, predict_nodes: nat) -> bool {
    text::has_text(status, "DONE"@) && !(step == 0 && predict_nodes <= 2)
}

impl FlopRun {
    /// There is a line of history for each step.
    pub open spec fn wf(self) -> bool {
        self.step <= self.max_steps && self.history@.len() == self.step
    }

    pub fn begin(settings: &FLOP, reference_plan: String) -> (r: Self)
        ensures
            r.wf(),
            r.reference_plan == reference_plan,
            r.max_steps == settings.max_steps,
            r.step == 0,
            !r.done,
    {
        FlopRun {
            reference_plan,
            max_steps: settings.max_steps,
            step: 0,
            history: Vec::new(),
            done: false,
        }
    }

    /// What the model is told next, while there are steps left. `graph` is the graph as it is
    /// shown.
    pub fn next_request(&self, graph: String) -> (r: Option<DagRequest>)
        ensures
            match r {
                Some(q) => !self.done && self.step < self.max_steps && q.reference_plan@
                    == self.reference_plan@ && q.current_graph == graph && q.history@
                    == history_text(text::views(self.history@)),
                None => self.done || self.step >= self.max_steps,
            },
    {
        if self.done || self.step >= self.max_steps {
            return None;
        }
        let history = if self.history.len() == 0 {
            "No actions taken yet.".to_owned()
        } else {
            text::join_strs(&self.history, "\n")
        };
        Some(
            DagRequest {
                reference_plan: self.reference_plan.clone(),
                current_graph: graph,
                history,
            },
        )
    }

    /// Takes a reply. `predict_nodes` is how many nodes predict in the graph that its tools left.
    pub fn replied(&mut self, thought: &str, status: &str, predict_nodes: usize)
        requires
            old(self).wf(),
            !old(self).done,
            old(self).step < old(self).max_steps,
        ensures
            final(self).wf(),
            final(self).reference_plan == old(self).reference_plan,
            final(self).max_steps == old(self).max_steps,
            final(self).step == old(self).step + 1,
            text::views(final(self).history@) == text::views(old(self).history@).push(
                history_line((old(self).step + 1) as nat, thought@, status@),
            ),
            final(self).done == ends_run(old(self).step as nat, status@, predict_nodes as nat),
    {
        let number = self.step + 1;
        let mut line = "Step ".to_owned();
        text::push_decimal(&mut line, number as u64);
        line.append(": Thought: ");
        line.append(thought);
        line.append(" | Status: ");
        line.append(status);
        text::push_line(&mut self.history, line);
        proof {
            assert(text::views(self.history@).len() == self.history@.len());
        }
        let says_done = text::contains_str(status, "DONE");
        self.done = says_done && !(self.step == 0 && predict_nodes <= 2);
        self.step = number;
    }
}

proof fn lemma_history_line(step: nat, thought: Seq<char>, status: Seq<char>)
    ensures
        text::has_prefix(history_line(step, thought, status), "Step "@ + text::decimal(step)),
        text::has_text(history_line(step, thought, status), thought),
        text::has_suffix(history_line(step, thought, status), status),
{
    let head = "Step "@ + text::decimal(step);
    let front = head + ": Thought: "@;
    text_laws::lemma_grouped(front + thought, " | Status: "@, status);
    text_laws::lemma_inside(front, thought, " | Status: "@ + status);
    text_laws::lemma_ends(front + thought + " | Status: "@, status);
    text_laws::lemma_grouped(front, thought, " | Status: "@ + status);
    text_laws::lemma_grouped(head, ": Thought: "@, thought + (" | Status: "@ + status));
    text_laws::lemma_ends(head, ": Thought: "@ + (thought + (" | Status: "@ + status)));
}

/// Every step is written down: its number, what the model thought, and the status that it gave.
/// What was written down before stays.
pub proof fn every_step_is_written_down(
    run: &mut FlopRun,
    thought: &str,
    status: &str,
    predict_nodes: usize,
    i: int,
)
    requires
        old(run).wf(),
        !old(run).done,
        old(run).step < old(run).max_steps,
        call_ensures(FlopRun::replied, (run, thought, status, predict_nodes), ()),
    ensures
        final(run).step == old(run).step + 1,
        final(run).history@.len() == old(run).history@.len() + 1,
        0 <= i < old(run).history@.len() ==> final(run).history@[i]@ == old(run).history@[i]@,
        text::has_prefix(
            final(run).history@.last()@,
            "Step "@ + text::decimal((old(run).step + 1) as nat),
        ),
        text::has_text(final(run).history@.last()@, thought@),
        text::has_suffix(final(run).history@.last()@, status@),
{
    let a = text::views(old(run).history@);
    let b = text::views(final(run).history@);
    lemma_history_line((old(run).step + 1) as nat, thought@, status@);
    assert(a.len() == old(run).history@.len());
    assert(b.len() == final(run).history@.len());
    assert(b.last() == final(run).history@.last()@);
    if 0 <= i < a.len() {
        assert(b[i] == a[i]);
        assert(b[i] == final(run).history@[i]@);
    }
}

/// The model is told of every step so far, in order, together with the plan and the graph as it
/// is.
pub proof fn the_model_is_told_of_every_step(
    run: &FlopRun,
    graph: String,
    r: Option<DagRequest>,
    i: int,
    j: int,
)
    requires
        run.wf(),
        !run.done,
        run.step < run.max_steps,
        call_ensures(FlopRun::next_request, (run, graph), r),
    ensures
        r is Some,
        r->0.current_graph == graph,
        r->0.reference_plan@ == run.reference_plan@,
        0 <= i < run.history@.len() ==> text::has_text(r->0.history@, run.history@[i]@),
        0 <= i < j < run.history@.len() ==> exists|a: int, b: int|
            a + run.history@[i]@.len() < b && #[trigger] text::occurs_at(
                r->0.history@,
                run.history@[i]@,
                a,
            ) && #[trigger] text::occurs_at(r->0.history@, run.history@[j]@, b),
{
    let lines = text::views(run.history@);
    assert(lines.len() == run.history@.len());
    reveal_strlit("\n");
    if 0 <= i < lines.len() {
        text_laws::lemma_join_at(lines, "\n"@, i);
        assert(text::has_text(r->0.history@, lines[i]));
        assert(lines[i] == run.history@[i]@);
        if i < j < lines.len() {
            text_laws::lemma_join_at(lines, "\n"@, j);
            text_laws::lemma_offsets_grow(lines, "\n"@, i, j);
            assert(lines[j] == run.history@[j]@);
        }
    }
}

/// A run goes on until the model says that it is done, or the steps are used up. That it is done
/// does not count in the first step while no more than two nodes predict.
pub proof fn runs_end_when_the_model_is_done(
    run: &mut FlopRun,
    thought: &str,
    status: &str,
    predict_nodes: usize,
    graph: String,
    r: Option<DagRequest>,
)
    requires
        old(run).wf(),
        !old(run).done,
        old(run).step < old(run).max_steps,
        call_ensures(FlopRun::replied, (run, thought, status, predict_nodes), ()),
        call_ensures(FlopRun::next_request, (final(run), graph), r),
    ensures
        !text::has_text(status@, "DONE"@) && old(run).step + 1 < old(run).max_steps ==> r is Some,
        text::has_text(status@, "DONE"@) && (old(run).step > 0 || predict_nodes > 2) ==> r is None,
        text::has_text(status@, "DONE"@) && old(run).step == 0 && predict_nodes <= 2
            && old(run).max_steps > 1 ==> r is Some,
        old(run).step + 1 == old(run).max_steps ==> r is None,
{
}

proof fn lemma_predict_nodes(nodes: Seq<NodeType>, n: nat)
    requires
        n <= nodes.len(),
    ensures
        predict_nodes(nodes, n) <= n,
        (forall|i: int| 0 <= i < n ==> #[trigger] nodes[i] is Predict) ==> predict_nodes(nodes, n)
            == n,
        (forall|i: int| 0 <= i < n ==> #[trigger] nodes[i] is Other) ==> predict_nodes(nodes, n)
            == 0,
    decreases n,
{
    if n > 0 {
        lemma_predict_nodes(nodes, (n - 1) as nat);
    }
}

proof fn lemma_predict_nodes_with(nodes: Seq<NodeType>, node: NodeType, n: nat)
    requires
        n <= nodes.len(),
    ensures
        predict_nodes(nodes.push(node), n) == predict_nodes(nodes, n),
    decreases n,
{
    if n > 0 {
        lemma_predict_nodes_with(nodes, node, (n - 1) as nat);
    }
}

/// Each node that predicts counts once: one more of them is one more, and another node changes
/// nothing.
pub proof fn nodes_that_predict_are_counted(
    graph: &Graph,
    grown: &Graph,
    node: NodeType,
    a: usize,
    b: usize,
)
    requires
        grown.nodes@ == graph.nodes@.push(node),
        call_ensures(Graph::predict_count, (graph,), a),
        call_ensures(Graph::predict_count, (grown,), b),
    ensures
        graph.nodes@.len() == 0 ==> a == 0,
        a <= graph.nodes@.len(),
        node is Predict ==> b == a + 1,
        node is Other ==> b == a,
{
    lemma_predict_nodes(graph.nodes@, graph.nodes@.len());
    lemma_predict_nodes_with(graph.nodes@, node, graph.nodes@.len());
}

/// The reply to a split names the node that was split and each of the new ones.
pub proof fn replies_name_the_nodes_of_a_split(
    tool: &SplitNodeTool,
    node_id: usize,
    ids: Vec<usize>,
    r: Result<String, ToolError>,
    i: int,
)
    requires
        call_ensures(SplitNodeTool::reply, (tool, node_id, Ok::<Vec<usize>, String>(ids)), r),
        0 <= i < ids@.len(),
    ensures
        r is Ok,
        text::has_text(r->Ok_0@, "split node "@ + text::decimal(node_id as nat)),
        text::has_text(r->Ok_0@, text::decimal(ids@[i] as nat)),
{
    let parts = Seq::new(ids@.len(), |i: int| text::decimal(ids@[i] as nat));
    let inner = text::join(parts, ", "@);
    text_laws::lemma_join_at(parts, ", "@, i);
    assert(text::has_text(inner, parts[i]));
    text_laws::lemma_inside("["@, inner, "]"@);
    text_laws::lemma_within(number_list(ids@), inner, parts[i]);
    let n = text::decimal(node_id as nat);
    let front = "Successfully split node "@ + n + " into nodes "@;
    text_laws::lemma_ends(front, number_list(ids@));
    text_laws::lemma_within(r->Ok_0@, number_list(ids@), parts[i]);
    assert("Successfully split node "@ == "Successfully "@ + "split node "@) by {
        reveal_strlit("Successfully split node ");
        reveal_strlit("Successfully ");
        reveal_strlit("split node ");
        assert("Successfully split node "@ =~= "Successfully "@ + "split node "@);
    }
    text_laws::lemma_grouped("Successfully "@, "split node "@, n);
    text_laws::lemma_grouped("Successfully "@ + ("split node "@ + n), " into nodes "@, number_list(ids@));
    text_laws::lemma_inside("Successfully "@, "split node "@ + n, " into nodes "@ + number_list(ids@));
}

/// A node is changed where it stands: it takes the new signature, and no other node changes.
pub proof fn changes_stay_in_their_node(
    tool: &ModifyNodeTool,
    graph: &mut Graph,
    node_id: usize,
    modified: JsonSignature,
    r: String,
    i: int,
)
    requires
        node_id < old(graph).nodes@.len(),
        old(graph).nodes@[node_id as int] is Predict,
        call_ensures(ModifyNodeTool::apply, (tool, graph, node_id, modified), r),
    ensures
        final(graph).nodes@.len() == old(graph).nodes@.len(),
        final(graph).nodes@[node_id as int] is Predict,
        final(graph).nodes@[node_id as int]->signature == modified,
        0 <= i < old(graph).nodes@.len() && i != node_id ==> final(graph).nodes@[i]
            == old(graph).nodes@[i],
        text::has_suffix(r@, text::decimal(node_id as nat)),
{
    text_laws::lemma_ends("Successfully modified node "@, text::decimal(node_id as nat));
    if 0 <= i < old(graph).nodes@.len() && i != node_id {
        assert(final(graph).nodes@[i] == old(graph).nodes@[i]);
    }
}

/// A change is asked for as it was given, and of nodes that predict only.
pub proof fn changes_are_asked_for_as_given(
    tool: &ModifyNodeTool,
    graph: &Graph,
    args: ModifyNodeArgs,
    r: Result<Modification, ToolError>,
    i: int,
)
    requires
        call_ensures(ModifyNodeTool::request, (tool, graph, args), r),
    ensures
        r is Ok <==> args.node_id < graph.nodes@.len() && graph.nodes@[args.node_id as int] is Predict,
        r is Ok ==> r->Ok_0.instruction == args.new_instruction && r->Ok_0.remove_fields
            == args.remove_fields,
        r is Ok && args.add_inputs is Some && 0 <= i < args.add_inputs->0@.len()
            ==> r->Ok_0.add_inputs is Some && r->Ok_0.add_inputs->0@.len()
            == args.add_inputs->0@.len() && r->Ok_0.add_inputs->0@[i].0@
            == args.add_inputs->0@[i].name@,
        r is Ok && args.add_outputs is Some && 0 <= i < args.add_outputs->0@.len()
            ==> r->Ok_0.add_outputs is Some && r->Ok_0.add_outputs->0@.len()
            == args.add_outputs->0@.len() && r->Ok_0.add_outputs->0@[i].0@
            == args.add_outputs->0@[i].name@,
{
    if r is Ok && args.add_inputs is Some && 0 <= i < args.add_inputs->0@.len() {
        let m = json::members_view(r->Ok_0.add_inputs->0@);
        assert(m.len() == r->Ok_0.add_inputs->0@.len());
        assert(m[i] == flop_tools::added_field(args.add_inputs->0@[i], "input"@, false));
    }
    if r is Ok && args.add_outputs is Some && 0 <= i < args.add_outputs->0@.len() {
        let m = json::members_view(r->Ok_0.add_outputs->0@);
        assert(m.len() == r->Ok_0.add_outputs->0@.len());
        assert(m[i] == flop_tools::added_field(args.add_outputs->0@[i], "output"@, false));
    }
}

} // verus!
