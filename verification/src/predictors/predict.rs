//! The state of a predictor: its demos, its instruction and its name, and the rows that demos are
//! kept as.

use vstd::prelude::*;

use crate::chat::{Chat, Message, Role};
use crate::json;
use crate::json::{clone_rows, JsonMap, JsonView};
use crate::json_laws;
use crate::optimizer::target::PredictState;
use crate::text;

verus! {

/// An input and the output that goes with it.
#[derive(Debug)]
pub struct Demo<I, O> {
    pub input: I,
    pub output: O,
}

impl<I, O> Demo<I, O> {
    pub fn new(input: I, output: O) -> (r: Self)
        ensures
            r.input == input,
            r.output == output,
    {
        Demo { input, output }
    }
}

/// The members of a row that the first `n` names pick, in the order of the names.
pub open spec fn picked(
    row: Seq<(Seq<char>, JsonView)>,
    names: Seq<Seq<char>>,
    n: nat,
) -> Seq<(Seq<char>, JsonView)>
    decreases n,
{
    if n == 0 || n > names.len() {
        Seq::empty()
    } else {
        let before = picked(row, names, (n - 1) as nat);
        let at = json::member_index(row, names[n - 1], 0);
        if at < row.len() {
            json::with_member(before, names[n - 1], row[at].1)
        } else {
            before
        }
    }
}

/// Picks the named fields out of a row.
pub fn pick_schema_fields(row: &JsonMap, names: &Vec<String>) -> (r: JsonMap)
    ensures
        json::members_view(r@) == picked(
            json::members_view(row@),
            text::views(names@),
            names@.len(),
        ),
{
    let mut out: JsonMap = Vec::new();
    let mut i: usize = 0;
    proof {
        assert(json::members_view(out@) =~= Seq::empty());
    }
    while i < names.len()
        invariant
            i <= names@.len(),
            json::members_view(out@) == picked(
                json::members_view(row@),
                text::views(names@),
                i as nat,
            ),
        decreases names@.len() - i,
    {
        let at = json::find_member(row, names[i].as_str());
        proof {
            assert(text::views(names@)[i as int] == names@[i as int]@);
        }
        if at < row.len() {
            proof {
                assert(json::members_view(row@)[at as int].1 == row@[at as int].1@);
            }
            json::put_member(&mut out, names[i].clone(), row[at].1.clone());
        }
        i += 1;
    }
    out
}

/// The names of the fields of a signature.
#[derive(Debug)]
pub struct FieldNames {
    pub inputs: Vec<String>,
    pub outputs: Vec<String>,
}

/// Splits a row into the input and the output of a demo. Members that are no field are left out.
pub fn demo_from_json(row: &JsonMap, fields: &FieldNames) -> (r: Demo<JsonMap, JsonMap>)
    ensures
        json::members_view(r.input@) == picked(
            json::members_view(row@),
            text::views(fields.inputs@),
            fields.inputs@.len(),
        ),
        json::members_view(r.output@) == picked(
            json::members_view(row@),
            text::views(fields.outputs@),
            fields.outputs@.len(),
        ),
{
    Demo::new(pick_schema_fields(row, &fields.inputs), pick_schema_fields(row, &fields.outputs))
}

/// The input and the output of a demo as one row.
pub open spec fn merged(
    input: Seq<(Seq<char>, JsonView)>,
    output: Seq<(Seq<char>, JsonView)>,
) -> Seq<(Seq<char>, JsonView)> {
    json::extended(input, output, output.len())
}

/// The input and the output of a demo as one row.
pub fn json_from_demo(demo: &Demo<JsonMap, JsonMap>) -> (r: JsonMap)
    ensures
        json::members_view(r@) == merged(
            json::members_view(demo.input@),
            json::members_view(demo.output@),
        ),
{
    let mut row = json::clone_map(&demo.input);
    json::extend_map(&mut row, &demo.output);
    row
}

proof fn lemma_member_index(m: Seq<(Seq<char>, JsonView)>, name: Seq<char>, from: int)
    requires
        0 <= from <= m.len(),
    ensures
        from <= json::member_index(m, name, from) <= m.len(),
        json::member_index(m, name, from) < m.len() ==> m[json::member_index(m, name, from)].0
            == name,
        forall|i: int|
            from <= i < json::member_index(m, name, from) ==> (#[trigger] m[i]).0 != name,
    decreases m.len() - from,
{
    if from < m.len() && m[from].0 != name {
        lemma_member_index(m, name, from + 1);
    }
}

/// The members have the names, in order.
pub open spec fn has_names(m: Seq<(Seq<char>, JsonView)>, names: Seq<Seq<char>>) -> bool {
    m.len() == names.len() && forall|i: int|
        0 <= i < m.len() ==> (#[trigger] m[i]).0 == names[i]
}

pub open spec fn distinct(names: Seq<Seq<char>>) -> bool {
    forall|i: int, j: int|
        0 <= i < j < names.len() ==> #[trigger] names[i] != #[trigger] names[j]
}

proof fn lemma_extended(
    a: Seq<(Seq<char>, JsonView)>,
    b: Seq<(Seq<char>, JsonView)>,
    x: Seq<Seq<char>>,
    y: Seq<Seq<char>>,
    n: nat,
)
    requires
        has_names(a, x),
        has_names(b, y),
        distinct(x + y),
        n <= b.len(),
    ensures
        json::extended(a, b, n) == a + b.take(n as int),
    decreases n,
{
    if n > 0 {
        lemma_extended(a, b, x, y, (n - 1) as nat);
        let before = a + b.take(n - 1);
        lemma_member_index(before, b[n - 1].0, 0);
        let at = json::member_index(before, b[n - 1].0, 0);
        if at < before.len() {
            assert((x + y)[x.len() + n - 1] == b[n - 1].0);
            if at < a.len() {
                assert(before[at] == a[at]);
                assert((x + y)[at] == a[at].0);
            } else {
                assert(before[at] == b[at - a.len()]);
                assert((x + y)[at] == b[at - a.len()].0);
            }
            assert((x + y)[at] != (x + y)[x.len() + n - 1]);
        }
        assert(json::extended(a, b, n) =~= a + b.take(n as int));
    } else {
        assert(a + b.take(0) =~= a);
    }
}

proof fn lemma_picked(
    row: Seq<(Seq<char>, JsonView)>,
    names: Seq<Seq<char>>,
    part: Seq<(Seq<char>, JsonView)>,
    from: int,
    n: nat,
)
    requires
        has_names(part, names),
        0 <= from,
        from + part.len() <= row.len(),
        row.subrange(from, from + part.len()) == part,
        distinct(Seq::new(row.len(), |i: int| row[i].0)),
        n <= names.len(),
    ensures
        picked(row, names, n) == part.take(n as int),
    decreases n,
{
    let all = Seq::new(row.len(), |i: int| row[i].0);
    if n > 0 {
        lemma_picked(row, names, part, from, (n - 1) as nat);
        let before = part.take(n - 1);
        let at = from + n - 1;
        assert(row[at] == part[n - 1]) by {
            assert(row.subrange(from, from + part.len())[n - 1] == row[at]);
        }
        lemma_member_index(row, names[n - 1], 0);
        let k = json::member_index(row, names[n - 1], 0);
        assert(k == at) by {
            if k > at {
                assert(row[at].0 != names[n - 1]);
            } else if k < at {
                assert(all[k] != all[at]);
            }
        }
        lemma_member_index(before, names[n - 1], 0);
        let m = json::member_index(before, names[n - 1], 0);
        if m < before.len() {
            assert(before[m] == part[m]);
            assert(row[from + m] == part[m]) by {
                assert(row.subrange(from, from + part.len())[m] == row[from + m]);
            }
            assert(all[from + m] != all[at]);
        }
        assert(picked(row, names, n) =~= part.take(n as int));
    } else {
        assert(part.take(0) =~= Seq::empty());
    }
}

/// A demo that holds the fields of its signature comes back from the row that it is kept as.
pub proof fn demo_rows_round_trip(
    input: Seq<(Seq<char>, JsonView)>,
    output: Seq<(Seq<char>, JsonView)>,
    inputs: Seq<Seq<char>>,
    outputs: Seq<Seq<char>>,
)
    requires
        has_names(input, inputs),
        has_names(output, outputs),
        distinct(inputs + outputs),
    ensures
        picked(merged(input, output), inputs, inputs.len()) == input,
        picked(merged(input, output), outputs, outputs.len()) == output,
{
    lemma_extended(input, output, inputs, outputs, output.len());
    let row = merged(input, output);
    assert(output.take(output.len() as int) =~= output);
    assert(row == input + output);
    let all = Seq::new(row.len(), |i: int| row[i].0);
    assert(all =~= inputs + outputs) by {
        assert forall|i: int| 0 <= i < all.len() implies #[trigger] all[i] == (inputs
            + outputs)[i] by {
            if i < input.len() {
                assert(row[i] == input[i]);
            } else {
                assert(row[i] == output[i - input.len()]);
            }
        }
    }
    assert(row.subrange(0, input.len() as int) =~= input);
    assert(row.subrange(input.len() as int, (input.len() + output.len()) as int) =~= output);
    lemma_picked(row, inputs, input, 0, inputs.len());
    lemma_picked(row, outputs, output, input.len() as int, outputs.len());
    assert(input.take(input.len() as int) =~= input);
}

/// Messages by who says what.
pub open spec fn message_views(messages: Seq<Message>) -> Seq<(Role, Seq<char>)> {
    Seq::new(messages.len(), |i: int| (messages[i].role, messages[i].content@))
}

/// The messages that a prompt begins with: the system message, and the first `n` demos as
/// questions and answers.
pub open spec fn prefix_messages(
    system: Seq<char>,
    demos: Seq<(String, String)>,
    n: nat,
) -> Seq<(Role, Seq<char>)>
    decreases n,
{
    if n == 0 || n > demos.len() {
        seq![(Role::System, system)]
    } else {
        prefix_messages(system, demos, (n - 1) as nat).push((Role::User, demos[n - 1].0@)).push(
            (Role::Assistant, demos[n - 1].1@),
        )
    }
}

/// A predictor. Its caches hold what was made from its state: the messages that every prompt
/// begins with, the program that it runs, and the overlay of its state.
#[derive(Debug)]
pub struct Predict {
    pub signature_name: String,
    pub default_instruction: String,
    pub demos: Vec<JsonMap>,
    pub instruction_override: Option<String>,
    pub trace_name: Option<String>,
    pub prompt_prefix: Option<Vec<Message>>,
    pub program_ready: bool,
    pub overlay_ready: bool,
    pub engine_ready: bool,
}

impl Predict {
    pub fn builder() -> (r: PredictBuilder)
        ensures
            r.demos@.len() == 0,
            r.instruction_override is None,
            r.trace_name is None,
    {
        PredictBuilder::new()
    }

    /// A predictor for a signature, without demos or an instruction of its own.
    pub fn new(signature_name: String, default_instruction: String) -> (r: Self)
        ensures
            r.signature_name == signature_name,
            r.default_instruction == default_instruction,
            r.demos@.len() == 0,
            r.instruction_override is None,
            r.trace_name is None,
            r.prompt_prefix is None,
            !r.program_ready,
            !r.overlay_ready,
            !r.engine_ready,
    {
        Predict {
            signature_name,
            default_instruction,
            demos: Vec::new(),
            instruction_override: None,
            trace_name: None,
            prompt_prefix: None,
            program_ready: false,
            overlay_ready: false,
            engine_ready: false,
        }
    }

    /// Sets the state that is given, and drops what was made from the old one.
    pub fn apply_state(
        &mut self,
        instruction: Option<Option<String>>,
        demos: Option<Vec<JsonMap>>,
    )
        ensures
            *final(self) == (Predict {
                instruction_override: match instruction {
                    Some(i) => i,
                    None => old(self).instruction_override,
                },
                demos: match demos {
                    Some(d) => d,
                    None => old(self).demos,
                },
                prompt_prefix: None,
                overlay_ready: false,
                ..*old(self)
            }),
    {
        if let Some(i) = instruction {
            self.instruction_override = i;
        }
        if let Some(d) = demos {
            self.demos = d;
        }
        self.prompt_prefix = None;
        self.overlay_ready = false;
    }

    /// Loads a state. `demos` are its demos, converted, or why one could not be; then nothing
    /// changes.
    pub fn load_state(
        &mut self,
        instruction_override: Option<String>,
        demos: Result<Vec<JsonMap>, String>,
    ) -> (r: Result<(), String>)
        ensures
            match demos {
                Ok(d) => r is Ok && *final(self) == (Predict {
                    instruction_override,
                    demos: d,
                    prompt_prefix: None,
                    overlay_ready: false,
                    ..*old(self)
                }),
                Err(e) => r == Err::<(), String>(e) && *final(self) == *old(self),
            },
    {
        match demos {
            Ok(d) => {
                self.apply_state(Some(instruction_override), Some(d));
                Ok(())
            },
            Err(e) => Err(e),
        }
    }

    /// The state.
    pub fn dump_state(&self) -> (r: PredictState)
        ensures
            r.instruction_override == self.instruction_override,
            json::rows_view(r.demos@) == json::rows_view(self.demos@),
    {
        let instruction_override = match &self.instruction_override {
            Some(i) => Some(i.clone()),
            None => None,
        };
        PredictState { instruction_override, demos: clone_rows(&self.demos) }
    }

    /// The instruction that is in force.
    pub fn instruction(&self) -> (r: String)
        ensures
            r@ == text::or_text(self.instruction_override, self.default_instruction@),
    {
        match &self.instruction_override {
            Some(i) => i.clone(),
            None => self.default_instruction.clone(),
        }
    }

    /// The name under which calls are recorded: its own, or that of the signature.
    pub fn component_name(&self) -> (r: String)
        ensures
            r@ == text::or_text(self.trace_name, self.signature_name@),
    {
        match &self.trace_name {
            Some(n) => n.clone(),
            None => self.signature_name.clone(),
        }
    }

    /// The name of the predictor as the one leaf of a program.
    pub fn leaf_name(&self) -> (r: String)
        ensures
            r@ == text::or_text(self.trace_name, "self"@),
    {
        match &self.trace_name {
            Some(n) => n.clone(),
            None => "self".to_owned(),
        }
    }

    /// Sets the name. Another name drops what was made with the old one.
    pub fn assign_trace_name(&mut self, name: &str)
        ensures
            text::opt_view(final(self).trace_name) == Some(name@),
            text::opt_view(old(self).trace_name) == Some(name@) ==> *final(self) == *old(self),
            text::opt_view(old(self).trace_name) != Some(name@) ==> *final(self) == (Predict {
                trace_name: final(self).trace_name,
                program_ready: false,
                overlay_ready: false,
                engine_ready: false,
                ..*old(self)
            }),
    {
        let same = match &self.trace_name {
            Some(n) => text::text_eq(n.as_str(), name),
            None => false,
        };
        if same {
            return;
        }
        self.trace_name = Some(name.to_owned());
        self.program_ready = false;
        self.overlay_ready = false;
        self.engine_ready = false;
    }

    /// There is state that the program does not have by itself.
    pub fn has_instance_state(&self) -> (r: bool)
        ensures
            r == (self.instruction_override is Some || self.demos@.len() > 0),
    {
        self.instruction_override.is_some() || self.demos.len() > 0
    }

    /// The messages that a prompt begins with. `demos` holds the demos as they are shown.
    fn build_prompt_prefix(system: &str, demos: &Vec<(String, String)>) -> (r: Vec<Message>)
        ensures
            message_views(r@) == prefix_messages(system@, demos@, demos@.len()),
    {
        let mut messages: Vec<Message> = Vec::new();
        messages.push(Message::system(system));
        proof {
            assert(message_views(messages@) =~= prefix_messages(system@, demos@, 0));
        }
        let mut i: usize = 0;
        while i < demos.len()
            invariant
                i <= demos@.len(),
                message_views(messages@) == prefix_messages(system@, demos@, i as nat),
            decreases demos@.len() - i,
        {
            messages.push(Message::user(demos[i].0.as_str()));
            messages.push(Message::assistant(demos[i].1.as_str()));
            proof {
                assert(message_views(messages@) =~= prefix_messages(
                    system@,
                    demos@,
                    (i + 1) as nat,
                ));
            }
            i += 1;
        }
        messages
    }

    /// Sees to it that the messages that a prompt begins with are kept. They are made once for a
    /// state.
    pub fn prompt_prefix(&mut self, system: &str, demos: &Vec<(String, String)>)
        ensures
            old(self).prompt_prefix is Some ==> *final(self) == *old(self),
            old(self).prompt_prefix is None ==> {
                &&& final(self).prompt_prefix matches Some(m) && message_views(m@)
                    == prefix_messages(system@, demos@, demos@.len())
                &&& *final(self) == (Predict {
                    prompt_prefix: final(self).prompt_prefix,
                    ..*old(self)
                })
            },
    {
        if self.prompt_prefix.is_none() {
            self.prompt_prefix = Some(Predict::build_prompt_prefix(system, demos));
        }
    }

    /// The conversation of a first turn: what every prompt begins with, and the input. `system` and
    /// `demos` are shown where the beginning has to be made.
    pub fn build_chat(
        &mut self,
        system: &str,
        demos: &Vec<(String, String)>,
        input: &str,
    ) -> (r: Chat)
        ensures
            message_views(r.messages@) == (match old(self).prompt_prefix {
                Some(kept) => message_views(kept@),
                None => prefix_messages(system@, demos@, demos@.len()),
            }).push((Role::User, input@)),
            *final(self) == (Predict { prompt_prefix: final(self).prompt_prefix, ..*old(self) }),
            final(self).prompt_prefix matches Some(m) && message_views(m@) == message_views(
                r.messages@,
            ).drop_last(),
            old(self).prompt_prefix is Some ==> *final(self) == *old(self),
    {
        self.prompt_prefix(system, demos);
        let mut messages: Vec<Message> = Vec::new();
        if let Some(prefix) = &self.prompt_prefix {
            let mut i: usize = 0;
            while i < prefix.len()
                invariant
                    i <= prefix@.len(),
                    messages@ == prefix@.take(i as int),
                decreases prefix@.len() - i,
            {
                messages.push(prefix[i].clone());
                i += 1;
                proof {
                    assert(messages@ =~= prefix@.take(i as int));
                }
            }
            proof {
                assert(messages@ =~= prefix@);
            }
        }
        let ghost begun = messages@;
        messages.push(Message::user(input));
        proof {
            assert(message_views(messages@) =~= message_views(begun).push((Role::User, input@)));
            assert(message_views(messages@).drop_last() =~= message_views(begun));
        }
        Chat::new(messages)
    }
}

/// Settings of a predictor that are collected before it is built.
#[derive(Debug)]
pub struct PredictBuilder {
    pub demos: Vec<JsonMap>,
    pub instruction_override: Option<String>,
    pub trace_name: Option<String>,
}

impl PredictBuilder {
    pub fn new() -> (r: Self)
        ensures
            r.demos@.len() == 0,
            r.instruction_override is None,
            r.trace_name is None,
    {
        PredictBuilder { demos: Vec::new(), instruction_override: None, trace_name: None }
    }

    /// Sets the name under which calls are recorded.
    pub fn named(self, name: String) -> (r: Self)
        ensures
            r == (PredictBuilder { trace_name: Some(name), ..self }),
    {
        PredictBuilder { trace_name: Some(name), ..self }
    }

    /// Adds a demo.
    pub fn demo(self, demo: JsonMap) -> (r: Self)
        ensures
            r.demos@ == self.demos@.push(demo),
            r.instruction_override == self.instruction_override,
            r.trace_name == self.trace_name,
    {
        let mut demos = self.demos;
        demos.push(demo);
        PredictBuilder {
            demos,
            instruction_override: self.instruction_override,
            trace_name: self.trace_name,
        }
    }

    /// Adds demos.
    pub fn with_demos(self, more: Vec<JsonMap>) -> (r: Self)
        ensures
            r.demos@ == self.demos@ + more@,
            r.instruction_override == self.instruction_override,
            r.trace_name == self.trace_name,
    {
        let mut demos = self.demos;
        let mut others = more;
        demos.append(&mut others);
        PredictBuilder {
            demos,
            instruction_override: self.instruction_override,
            trace_name: self.trace_name,
        }
    }

    /// Sets the instruction.
    pub fn instruction(self, instruction: String) -> (r: Self)
        ensures
            r == (PredictBuilder { instruction_override: Some(instruction), ..self }),
    {
        PredictBuilder { instruction_override: Some(instruction), ..self }
    }

    /// Builds a predictor for a signature.
    pub fn build(self, signature_name: String, default_instruction: String) -> (r: Predict)
        ensures
            r == (Predict {
                signature_name,
                default_instruction,
                demos: self.demos,
                instruction_override: self.instruction_override,
                trace_name: self.trace_name,
                prompt_prefix: None,
                program_ready: false,
                overlay_ready: false,
                engine_ready: false,
            }),
    {
        let mut predict = Predict::new(signature_name, default_instruction);
        predict.trace_name = self.trace_name;
        predict.apply_state(Some(self.instruction_override), Some(self.demos));
        predict
    }
}

/// Values for slots of a program, by the name of the slot. `base` is the program.
#[derive(Debug)]
pub struct SlotOverlay {
    pub base: String,
    pub entries: JsonMap,
}

/// Copies of the members, for an overlay.
fn overlay_of(base: &str, entries: &JsonMap) -> (r: SlotOverlay)
    ensures
        r.base@ == base@,
        json::members_view(r.entries@) == json::members_view(entries@),
{
    SlotOverlay { base: base.to_owned(), entries: json::clone_map(entries) }
}

/// The slots that a run reads through: those of the predictor, over them those of the
/// surroundings if they are for the program, and over all the values for this call.
pub open spec fn effective(
    program: Seq<char>,
    instance: Option<Seq<(Seq<char>, JsonView)>>,
    ambient: Option<(Seq<char>, Seq<(Seq<char>, JsonView)>)>,
    params: Seq<(Seq<char>, JsonView)>,
) -> Option<Seq<(Seq<char>, JsonView)>> {
    let matching = match ambient {
        Some((base, entries)) => if base == program {
            Some(entries)
        } else {
            None
        },
        None => None,
    };
    let below = match (instance, matching) {
        (None, None) => None,
        (Some(i), None) => Some(i),
        (None, Some(a)) => Some(a),
        (Some(i), Some(a)) => Some(json::extended(i, a, a.len())),
    };
    if params.len() == 0 {
        below
    } else {
        match below {
            Some(b) => Some(json::extended(b, params, params.len())),
            None => Some(json::extended(Seq::empty(), params, params.len())),
        }
    }
}

pub open spec fn entries_of(o: Option<SlotOverlay>) -> Option<Seq<(Seq<char>, JsonView)>> {
    match o {
        Some(o) => Some(json::members_view(o.entries@)),
        None => None,
    }
}

/// The overlay that a run reads through.
pub fn effective_overlay(
    program: &str,
    instance: &Option<SlotOverlay>,
    ambient: &Option<SlotOverlay>,
    params: &JsonMap,
) -> (r: Option<SlotOverlay>)
    ensures
        entries_of(r) == effective(
            program@,
            entries_of(*instance),
            match *ambient {
                Some(a) => Some((a.base@, json::members_view(a.entries@))),
                None => None,
            },
            json::members_view(params@),
        ),
        r matches Some(o) ==> o.base@ == program@,
{
    let matching = match ambient {
        Some(a) => if text::text_eq(a.base.as_str(), program) {
            Some(a)
        } else {
            None
        },
        None => None,
    };
    let mut below = match (instance, matching) {
        (None, None) => None,
        (Some(i), None) => Some(overlay_of(program, &i.entries)),
        (None, Some(a)) => Some(overlay_of(program, &a.entries)),
        (Some(i), Some(a)) => {
            let mut over = overlay_of(program, &i.entries);
            json::extend_map(&mut over.entries, &a.entries);
            Some(over)
        },
    };
    if params.len() == 0 {
        return below;
    }
    let mut over = match below.take() {
        Some(o) => o,
        None => {
            let none: JsonMap = Vec::new();
            proof {
                assert(json::members_view(none@) =~= Seq::empty());
            }
            SlotOverlay { base: program.to_owned(), entries: none }
        },
    };
    json::extend_map(&mut over.entries, params);
    Some(over)
}

/// What a row says of a name.
pub open spec fn said(m: Seq<(Seq<char>, JsonView)>, name: Seq<char>) -> Option<JsonView> {
    let at = json::member_index(m, name, 0);
    if at < m.len() {
        Some(m[at].1)
    } else {
        None
    }
}

proof fn lemma_said_at(m: Seq<(Seq<char>, JsonView)>, name: Seq<char>, i: int)
    requires
        0 <= i <= m.len(),
        forall|j: int| 0 <= j < i ==> (#[trigger] m[j]).0 != name,
        i < m.len() ==> m[i].0 == name,
    ensures
        json::member_index(m, name, 0) == i,
        said(m, name) == (if i < m.len() {
            Some(m[i].1)
        } else {
            None
        }),
{
    lemma_member_index(m, name, 0);
    let k = json::member_index(m, name, 0);
    if k < i {
        assert(m[k].0 != name);
    } else if k > i {
        assert(m[i].0 != name);
    }
}

proof fn lemma_said_with(m: Seq<(Seq<char>, JsonView)>, key: Seq<char>, v: JsonView, name: Seq<char>)
    ensures
        said(json::with_member(m, key, v), name) == (if name == key {
            Some(v)
        } else {
            said(m, name)
        }),
{
    let w = json::with_member(m, key, v);
    lemma_member_index(m, key, 0);
    lemma_member_index(m, name, 0);
    let at = json::member_index(m, key, 0);
    let a = json::member_index(m, name, 0);
    assert forall|i: int| 0 <= i < m.len() implies (#[trigger] w[i]).0 == m[i].0 by {
        if i == at {
            assert(w[i].0 == key);
        }
    }
    if name == key {
        assert(w[at] == (key, v));
        assert forall|j: int| 0 <= j < at implies (#[trigger] w[j]).0 != name by {
            assert(m[j].0 != name);
        }
        lemma_said_at(w, name, at);
    } else if a < m.len() {
        assert(w[a] == m[a]);
        assert forall|j: int| 0 <= j < a implies (#[trigger] w[j]).0 != name by {
            assert(m[j].0 != name);
        }
        lemma_said_at(w, name, a);
    } else {
        assert forall|j: int| 0 <= j < w.len() implies (#[trigger] w[j]).0 != name by {
            if j < m.len() {
                assert(m[j].0 != name);
            } else {
                assert(w[j].0 == key);
            }
        }
        lemma_said_at(w, name, w.len() as int);
    }
}

proof fn lemma_said_extended(
    m: Seq<(Seq<char>, JsonView)>,
    others: Seq<(Seq<char>, JsonView)>,
    n: nat,
    name: Seq<char>,
)
    requires
        n <= others.len(),
    ensures
        (forall|i: int| 0 <= i < n ==> (#[trigger] others[i]).0 != name) ==> said(
            json::extended(m, others, n),
            name,
        ) == said(m, name),
        forall|i: int|
            0 <= i < n && (#[trigger] others[i]).0 == name && (forall|j: int|
                i < j < n ==> (#[trigger] others[j]).0 != name) ==> said(
                json::extended(m, others, n),
                name,
            ) == Some(others[i].1),
    decreases n,
{
    if n > 0 {
        lemma_said_extended(m, others, (n - 1) as nat, name);
        let before = json::extended(m, others, (n - 1) as nat);
        lemma_said_with(before, others[n - 1].0, others[n - 1].1, name);
        if forall|i: int| 0 <= i < n ==> (#[trigger] others[i]).0 != name {
            assert(others[n - 1].0 != name);
        }
        assert forall|i: int|
            0 <= i < n && (#[trigger] others[i]).0 == name && (forall|j: int|
                i < j < n ==> (#[trigger] others[j]).0 != name) implies said(
            json::extended(m, others, n),
            name,
        ) == Some(others[i].1) by {
            if i < n - 1 {
                assert(others[n - 1].0 != name);
            }
        }
    }
}

/// In the overlay of a run the values for the call win over those of the surroundings, and those
/// over the predictor's own.
pub proof fn later_layers_win(
    program: Seq<char>,
    instance: Seq<(Seq<char>, JsonView)>,
    ambient: Seq<(Seq<char>, JsonView)>,
    params: Seq<(Seq<char>, JsonView)>,
    name: Seq<char>,
)
    requires
        distinct(Seq::new(ambient.len(), |i: int| ambient[i].0)),
        distinct(Seq::new(params.len(), |i: int| params[i].0)),
    ensures
        effective(program, Some(instance), Some((program, ambient)), params) matches Some(over)
            && said(over, name) == (match said(params, name) {
            Some(v) => Some(v),
            None => match said(ambient, name) {
                Some(v) => Some(v),
                None => said(instance, name),
            },
        }),
{
    let below = json::extended(instance, ambient, ambient.len());
    lemma_layer(instance, ambient, name);
    lemma_layer(below, params, name);
    lemma_member_index(params, name, 0);
    let over = effective(program, Some(instance), Some((program, ambient)), params);
    if params.len() == 0 {
        assert(over == Some(below));
    } else {
        assert(over == Some(json::extended(below, params, params.len())));
    }
}

proof fn lemma_layer(
    below: Seq<(Seq<char>, JsonView)>,
    above: Seq<(Seq<char>, JsonView)>,
    name: Seq<char>,
)
    requires
        distinct(Seq::new(above.len(), |i: int| above[i].0)),
    ensures
        said(json::extended(below, above, above.len()), name) == (match said(above, name) {
            Some(v) => Some(v),
            None => said(below, name),
        }),
{
    let keys = Seq::new(above.len(), |i: int| above[i].0);
    lemma_said_extended(below, above, above.len(), name);
    lemma_member_index(above, name, 0);
    let at = json::member_index(above, name, 0);
    if at < above.len() {
        assert forall|j: int| at < j < above.len() implies (#[trigger] above[j]).0 != name by {
            assert(keys[at] != keys[j]);
        }
    } else {
        assert forall|i: int| 0 <= i < above.len() implies (#[trigger] above[i]).0 != name by {}
    }
}

proof fn lemma_prefix_messages(system: Seq<char>, demos: Seq<(String, String)>, n: nat)
    requires
        n <= demos.len(),
    ensures
        prefix_messages(system, demos, n).len() == 1 + 2 * n,
        prefix_messages(system, demos, n)[0] == (Role::System, system),
        forall|i: int|
            0 <= i < n ==> prefix_messages(system, demos, n)[1 + 2 * i] == (
                Role::User,
                (#[trigger] demos[i]).0@,
            ) && prefix_messages(system, demos, n)[2 + 2 * i] == (Role::Assistant, demos[i].1@),
    decreases n,
{
    if n > 0 {
        lemma_prefix_messages(system, demos, (n - 1) as nat);
    }
}

/// The conversation of a first turn: the system message, each demo as a question and its answer
/// in the order of the demos, and the input at the end. Nothing else is said.
pub proof fn prompts_show_every_demo(
    predict: &mut Predict,
    system: &str,
    demos: &Vec<(String, String)>,
    input: &str,
    r: Chat,
    i: int,
)
    requires
        old(predict).prompt_prefix is None,
        call_ensures(Predict::build_chat, (predict, system, demos, input), r),
    ensures
        r.messages@.len() == 2 * demos@.len() + 2,
        r.messages@[0].role is System,
        r.messages@[0].content@ == system@,
        0 <= i < demos@.len() ==> {
            &&& r.messages@[1 + 2 * i].role is User
            &&& r.messages@[1 + 2 * i].content@ == demos@[i].0@
            &&& r.messages@[2 + 2 * i].role is Assistant
            &&& r.messages@[2 + 2 * i].content@ == demos@[i].1@
        },
        r.messages@.last().role is User,
        r.messages@.last().content@ == input@,
{
    lemma_prefix_messages(system@, demos@, demos@.len());
    let shown = message_views(r.messages@);
    let begun = prefix_messages(system@, demos@, demos@.len());
    assert(shown.len() == r.messages@.len());
    assert(shown[0] == begun[0]);
    assert(shown.last() == (Role::User, input@));
    if 0 <= i < demos@.len() {
        assert(demos@[i].0@ == demos@[i].0@);
        assert(shown[1 + 2 * i] == begun[1 + 2 * i]);
        assert(shown[2 + 2 * i] == begun[2 + 2 * i]);
    }
}

/// Two prompts of one state begin alike: the second differs in its input only.
pub proof fn prompts_of_a_state_begin_alike(
    first: &mut Predict,
    second: &mut Predict,
    system: &str,
    demos: &Vec<(String, String)>,
    input: &str,
    system_again: &str,
    demos_again: &Vec<(String, String)>,
    input_again: &str,
    a: Chat,
    b: Chat,
    i: int,
)
    requires
        call_ensures(Predict::build_chat, (first, system, demos, input), a),
        *old(second) == *final(first),
        call_ensures(Predict::build_chat, (second, system_again, demos_again, input_again), b),
    ensures
        a.messages@.len() == b.messages@.len(),
        0 <= i < a.messages@.len() - 1 ==> a.messages@[i].role == b.messages@[i].role
            && a.messages@[i].content@ == b.messages@[i].content@,
        b.messages@.last().role is User,
        b.messages@.last().content@ == input_again@,
{
    let x = message_views(a.messages@);
    let y = message_views(b.messages@);
    let kept = final(first).prompt_prefix->0;
    assert(y == message_views(kept@).push((Role::User, input_again@)));
    assert(x.drop_last() == message_views(kept@));
    assert(x.len() == a.messages@.len() && y.len() == b.messages@.len());
    assert(y.last() == (Role::User, input_again@));
    if 0 <= i < a.messages@.len() - 1 {
        assert(x[i] == x.drop_last()[i]);
        assert(y[i] == message_views(kept@)[i]);
    }
}

/// A state that was dumped is in force where it is loaded, and the next prompt is made anew.
pub proof fn dumped_states_load_back(
    from: &Predict,
    to: &mut Predict,
    state: PredictState,
    r: Result<(), String>,
)
    requires
        call_ensures(Predict::dump_state, (from,), state),
        call_ensures(
            Predict::load_state,
            (to, state.instruction_override, Ok::<Vec<JsonMap>, String>(state.demos)),
            r,
        ),
    ensures
        r is Ok,
        final(to).instruction_override == from.instruction_override,
        json::rows_view(final(to).demos@) == json::rows_view(from.demos@),
        final(to).prompt_prefix is None,
        !final(to).overlay_ready,
        final(to).default_instruction == old(to).default_instruction,
        final(to).trace_name == old(to).trace_name,
{
}

/// The instruction in force is the one that was set last, and the one of the signature where none
/// was set or the one that was is taken back. Demos that are not given stay.
pub proof fn set_instructions_are_in_force(
    predict: &mut Predict,
    instruction: Option<String>,
    r: String,
)
    requires
        call_ensures(
            Predict::apply_state,
            (predict, Some(instruction), None::<Vec<JsonMap>>),
            (),
        ),
        call_ensures(Predict::instruction, (final(predict),), r),
    ensures
        instruction is Some ==> r@ == instruction->0@,
        instruction is None ==> r@ == old(predict).default_instruction@,
        final(predict).demos == old(predict).demos,
        final(predict).prompt_prefix is None,
{
}

/// A demo that holds the fields of its signature is read back from the row that it is kept as.
pub proof fn demos_are_read_back(
    demo: &Demo<JsonMap, JsonMap>,
    fields: &FieldNames,
    row: JsonMap,
    r: Demo<JsonMap, JsonMap>,
)
    requires
        call_ensures(json_from_demo, (demo,), row),
        call_ensures(demo_from_json, (&row, fields), r),
        has_names(json::members_view(demo.input@), text::views(fields.inputs@)),
        has_names(json::members_view(demo.output@), text::views(fields.outputs@)),
        distinct(text::views(fields.inputs@) + text::views(fields.outputs@)),
    ensures
        json::members_view(r.input@) == json::members_view(demo.input@),
        json::members_view(r.output@) == json::members_view(demo.output@),
{
    demo_rows_round_trip(
        json::members_view(demo.input@),
        json::members_view(demo.output@),
        text::views(fields.inputs@),
        text::views(fields.outputs@),
    );
}

/// What a run reads for a name: the value for the call, else that of the surroundings, else the
/// predictor's own.
pub proof fn runs_read_through_the_layers(
    program: &str,
    instance: &Option<SlotOverlay>,
    ambient: &Option<SlotOverlay>,
    params: &JsonMap,
    r: Option<SlotOverlay>,
    name: Seq<char>,
)
    requires
        call_ensures(effective_overlay, (program, instance, ambient, params), r),
        instance is Some,
        ambient is Some,
        ambient->0.base@ == program@,
        distinct(json::keys_of(json::members_view(ambient->0.entries@))),
        distinct(json::keys_of(json::members_view(params@))),
    ensures
        r is Some,
        r->0.base@ == program@,
        said(json::members_view(r->0.entries@), name) == (match said(
            json::members_view(params@),
            name,
        ) {
            Some(v) => Some(v),
            None => match said(json::members_view(ambient->0.entries@), name) {
                Some(v) => Some(v),
                None => said(json::members_view(instance->0.entries@), name),
            },
        }),
{
    let a = json::members_view(ambient->0.entries@);
    let p = json::members_view(params@);
    assert(json::keys_of(a) =~= Seq::new(a.len(), |i: int| a[i].0));
    assert(json::keys_of(p) =~= Seq::new(p.len(), |i: int| p[i].0));
    later_layers_win(program@, json::members_view(instance->0.entries@), a, p, name);
}

/// Surroundings that are for another program are not read.
pub proof fn surroundings_of_other_programs_are_left_out(
    program: &str,
    instance: &Option<SlotOverlay>,
    ambient: &Option<SlotOverlay>,
    params: &JsonMap,
    r: Option<SlotOverlay>,
    without: Option<SlotOverlay>,
)
    requires
        ambient is Some,
        ambient->0.base@ != program@,
        call_ensures(effective_overlay, (program, instance, ambient, params), r),
        call_ensures(effective_overlay, (program, instance, &None::<SlotOverlay>, params), without),
    ensures
        entries_of(r) == entries_of(without),
        instance is None && params@.len() == 0 ==> r is None,
        instance is Some && params@.len() == 0 ==> r is Some && json::members_view(
            r->0.entries@,
        ) == json::members_view(instance->0.entries@),
{
    assert(json::members_view(params@).len() == params@.len());
}

proof fn lemma_picked_members(
    row: Seq<(Seq<char>, JsonView)>,
    names: Seq<Seq<char>>,
    n: nat,
    k: int,
    m: (Seq<char>, JsonView),
)
    requires
        n <= names.len(),
        json::distinct_names(row),
    ensures
        picked(row, names, n).contains(m) ==> row.contains(m) && names.contains(m.0),
        row.contains(m) && 0 <= k < n && names[k] == m.0 ==> picked(row, names, n).contains(m),
    decreases n,
{
    if n > 0 {
        let last = names[n - 1];
        let at = json::member_index(row, last, 0);
        lemma_picked_members(row, names, (n - 1) as nat, k, m);
        lemma_member_index(row, last, 0);
        assert(names.contains(last));
        if at < row.len() {
            json_laws::lemma_with_member(
                picked(row, names, (n - 1) as nat),
                last,
                row[at].1,
                m,
            );
            assert(row[at] == (last, row[at].1));
        }
        if row.contains(m) && m.0 == last {
            let i = row.index_of(m);
            assert(row[i] == m);
            if at < row.len() {
                assert(row[at].0 == row[i].0);
                assert(at == i);
            }
        }
    }
}

/// Of a row the fields of the schema are kept, each with its value, and no others.
pub proof fn fields_of_the_schema_are_kept(
    row: &JsonMap,
    names: &Vec<String>,
    r: JsonMap,
    k: int,
    m: (Seq<char>, JsonView),
)
    requires
        call_ensures(pick_schema_fields, (row, names), r),
        json::distinct_names(json::members_view(row@)),
    ensures
        json::members_view(r@).contains(m) ==> json::members_view(row@).contains(m) && exists|i: int|
            0 <= i < names@.len() && (#[trigger] names@[i])@ == m.0,
        json::members_view(row@).contains(m) && 0 <= k < names@.len() && names@[k]@ == m.0
            ==> json::members_view(r@).contains(m),
{
    let wanted = text::views(names@);
    lemma_picked_members(json::members_view(row@), wanted, wanted.len(), k, m);
    if wanted.contains(m.0) {
        let i = wanted.index_of(m.0);
        assert(names@[i]@ == m.0);
    }
    if 0 <= k < names@.len() {
        assert(wanted[k] == names@[k]@);
    }
}

} // verus!
