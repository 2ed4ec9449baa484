//! What is optimized: its predictors, its examples, and the state that a winner leaves.

use vstd::prelude::*;

use crate::json;
use crate::json::{Json, JsonMap, JsonView};
use crate::names;
use crate::optimizer::engine::{Candidate, CandidateSlot, SlotView};
use crate::optimizer::harvest;
use crate::optimizer::rollouts;
use crate::optimizer::program_engine;
use crate::optimizer::rollouts::{CandidatePayload, Lane};
use crate::text;
use crate::text_laws;
use crate::trace::{Eval, Trace};

verus! {

/// A predictor that can be optimized. A field is its name and its description.
#[derive(Debug)]
pub struct LeafInfo {
    pub name: String,
    pub instruction: String,
    pub default_instruction: String,
    pub demos: Vec<JsonMap>,
    pub input_fields: Vec<(String, String)>,
    pub output_fields: Vec<(String, String)>,
}

/// What a predictor tells of itself.
#[derive(Debug)]
pub struct PredictorFacts {
    pub instruction: String,
    pub default_instruction: String,
    pub demos: Vec<JsonMap>,
    pub input_fields: Vec<(String, String)>,
    pub output_fields: Vec<(String, String)>,
}

/// One line for each of the first `n` fields.
pub open spec fn field_lines(fields: Seq<(String, String)>, n: nat) -> Seq<char>
    decreases n,
{
    if n == 0 || n > fields.len() {
        Seq::empty()
    } else {
        field_lines(fields, (n - 1) as nat) + "  - "@ + fields[n - 1].0@ + ": "@ + (
        if fields[n - 1].1@.len() == 0 {
            "No description"@
        } else {
            fields[n - 1].1@
        }) + "\n"@
    }
}

pub fn push_field_lines(out: &mut String, fields: &Vec<(String, String)>)
    ensures
        final(out)@ == old(out)@ + field_lines(fields@, fields@.len()),
{
    let mut i: usize = 0;
    proof {
        assert(out@ =~= old(out)@ + field_lines(fields@, 0));
    }
    while i < fields.len()
        invariant
            i <= fields@.len(),
            out@ == old(out)@ + field_lines(fields@, i as nat),
        decreases fields@.len() - i,
    {
        out.append("  - ");
        out.append(fields[i].0.as_str());
        out.append(": ");
        if fields[i].1.as_str().is_empty() {
            out.append("No description");
        } else {
            out.append(fields[i].1.as_str());
        }
        out.append("\n");
        i += 1;
        proof {
            assert(out@ =~= old(out)@ + field_lines(fields@, i as nat));
        }
    }
}

impl LeafInfo {
    /// The leaf of a predictor.
    pub fn from_predictor(name: &str, info: PredictorFacts) -> (r: Self)
        ensures
            r.name@ == name@,
            r.instruction == info.instruction,
            r.default_instruction == info.default_instruction,
            r.demos == info.demos,
            r.input_fields == info.input_fields,
            r.output_fields == info.output_fields,
    {
        LeafInfo {
            name: name.to_owned(),
            instruction: info.instruction,
            default_instruction: info.default_instruction,
            demos: info.demos,
            input_fields: info.input_fields,
            output_fields: info.output_fields,
        }
    }

    /// The fields, as a reflecting model reads them.
    pub open spec fn schema_text(&self) -> Seq<char> {
        "Input fields:\n"@ + field_lines(self.input_fields@, self.input_fields@.len())
            + "Output fields:\n"@ + field_lines(self.output_fields@, self.output_fields@.len())
    }

    pub fn schema_for_reflection(&self) -> (r: String)
        ensures
            r@ == self.schema_text(),
    {
        let mut out = "Input fields:\n".to_owned();
        push_field_lines(&mut out, &self.input_fields);
        out.append("Output fields:\n");
        push_field_lines(&mut out, &self.output_fields);
        out
    }
}

/// The first leaf with the name, or the number of leaves.
pub open spec fn leaf_index(leaves: Seq<LeafInfo>, name: Seq<char>, from: int) -> int
    decreases leaves.len() - from,
{
    if from >= leaves.len() || leaves[from].name@ == name {
        from
    } else {
        leaf_index(leaves, name, from + 1)
    }
}

pub fn find_leaf(leaves: &Vec<LeafInfo>, name: &str) -> (r: Option<usize>)
    ensures
        match r {
            Some(i) => i == leaf_index(leaves@, name@, 0) && i < leaves@.len()
                && leaves@[i as int].name@ == name@,
            None => leaf_index(leaves@, name@, 0) == leaves@.len(),
        },
{
    let mut i: usize = 0;
    while i < leaves.len()
        invariant
            i <= leaves@.len(),
            leaf_index(leaves@, name@, 0) == leaf_index(leaves@, name@, i as int),
        decreases leaves@.len() - i,
    {
        if text::text_eq(leaves[i].name.as_str(), name) {
            return Some(i);
        }
        i += 1;
    }
    None
}

/// What is optimized. The examples of a validation set come before those of the training set.
#[derive(Debug)]
pub struct OptimizeTarget {
    pub lane: Lane,
    pub leaves: Vec<LeafInfo>,
    pub val_len: Option<usize>,
}

/// The numbers from `from` up to `to`.
pub open spec fn range(from: int, to: int) -> Seq<usize> {
    Seq::new(
        (if from < to {
            to - from
        } else {
            0
        }) as nat,
        |i: int| (from + i) as usize,
    )
}

impl OptimizeTarget {
    pub open spec fn wf(&self) -> bool {
        self.val_len is Some ==> self.val_len->0 <= self.lane.uids@.len()
    }

    pub fn num_examples(&self) -> (r: usize)
        ensures
            r == self.lane.uids@.len(),
    {
        self.lane.uids.len()
    }

    pub fn has_valset(&self) -> (r: bool)
        ensures
            r == (self.val_len is Some),
    {
        self.val_len.is_some()
    }

    pub open spec fn val_range(&self) -> Seq<usize> {
        match self.val_len {
            Some(len) => range(0, len as int),
            None => range(0, self.lane.uids@.len() as int),
        }
    }

    pub open spec fn train_range(&self) -> Seq<usize> {
        match self.val_len {
            Some(len) => range(len as int, self.lane.uids@.len() as int),
            None => range(0, self.lane.uids@.len() as int),
        }
    }

    /// The examples that candidates are compared on.
    pub fn val_columns(&self) -> (r: Vec<usize>)
        ensures
            r@ == self.val_range(),
    {
        match self.val_len {
            Some(len) => rollouts::example_range(0, len),
            None => rollouts::example_range(0, self.lane.uids.len()),
        }
    }

    /// The examples that minibatches are drawn from.
    pub fn train_columns(&self) -> (r: Vec<usize>)
        ensures
            r@ == self.train_range(),
    {
        match self.val_len {
            Some(len) => rollouts::example_range(len, self.lane.uids.len()),
            None => rollouts::example_range(0, self.lane.uids.len()),
        }
    }
}

/// With a validation set every example is in exactly one of the two ranges; without one it is
/// in both.
pub proof fn columns_partition_the_examples(target: OptimizeTarget, example: usize)
    requires
        target.wf(),
        example < target.lane.uids@.len(),
    ensures
        target.val_len is Some ==> target.val_range().contains(example)
            != target.train_range().contains(example),
        target.val_len is None ==> target.val_range().contains(example)
            && target.train_range().contains(example),
{
    assert(target.lane.uids.len() == target.lane.uids@.len());
    match target.val_len {
        Some(len) => {
            if example < len {
                assert(target.val_range()[example as int] == example);
                assert forall|k: int| 0 <= k < target.train_range().len() implies
                    target.train_range()[k] != example by {}
            } else {
                assert(target.train_range()[example - len] == example);
                assert forall|k: int| 0 <= k < target.val_range().len() implies
                    target.val_range()[k] != example by {}
            }
        },
        None => {
            assert(target.val_range()[example as int] == example);
        },
    }
}

/// Where an example of a module target comes from.
#[derive(Clone, Copy, Debug, PartialEq, Eq, Structural)]
pub enum ExampleSource {
    Validation(usize),
    Training(usize),
}

/// The source of an example: validation examples come first.
pub fn example_source(val_len: usize, example: usize) -> (r: ExampleSource)
    ensures
        r == (if example < val_len {
            ExampleSource::Validation(example)
        } else {
            ExampleSource::Training((example - val_len) as usize)
        }),
{
    if example < val_len {
        ExampleSource::Validation(example)
    } else {
        ExampleSource::Training(example - val_len)
    }
}

/// The states by name, as an object: of two with one name the later one counts.
pub open spec fn states_after(
    states: Seq<(String, Json)>,
    n: nat,
) -> Map<Seq<char>, JsonView>
    decreases n,
{
    if n == 0 || n > states.len() {
        Map::empty()
    } else {
        states_after(states, (n - 1) as nat).insert(states[n - 1].0@, states[n - 1].1@)
    }
}

/// The hash is that of the states of a module, by name.
pub open spec fn is_baseline(states: Seq<(String, Json)>, hash: u64) -> bool {
    exists|members: Seq<(String, Json)>| #[trigger]
        names::sorted_names(members) && names::map_of(members).map_values(|j: Json| j@)
            == states_after(states, states.len()) && hash == json::hash_of(
            json::canonical(JsonView::Object(json::members_view(members))),
        )
}

/// The hash of the state that a module starts from.
pub fn module_baseline(states: &Vec<(String, Json)>) -> (r: u64)
    ensures
        is_baseline(states@, r),
{
    let mut members: Vec<(String, Json)> = Vec::new();
    let mut i: usize = 0;
    proof {
        assert(names::map_of(members@).map_values(|j: Json| j@) =~= states_after(states@, 0));
    }
    while i < states.len()
        invariant
            i <= states@.len(),
            names::sorted_names(members@),
            names::map_of(members@).map_values(|j: Json| j@) == states_after(states@, i as nat),
        decreases states@.len() - i,
    {
        let ghost before = members@;
        let value = states[i].1.clone();
        names::put(&mut members, states[i].0.clone(), value);
        i += 1;
        proof {
            assert(names::map_of(members@).map_values(|j: Json| j@) =~= names::map_of(
                before,
            ).map_values(|j: Json| j@).insert(states@[i - 1].0@, states@[i - 1].1@));
        }
    }
    let ghost kept = members@;
    proof {
        assert(names::sorted_names(kept));
    }
    let object = json::object(members);
    json::canonical_hash(&object)
}

/// What a predictor keeps between runs.
#[derive(Debug)]
pub struct PredictState {
    pub instruction_override: Option<String>,
    pub demos: Vec<JsonMap>,
}

/// The state with what a slot changes.
pub open spec fn installed(
    instruction: Option<Seq<char>>,
    demos: Seq<Seq<(Seq<char>, JsonView)>>,
    slot: SlotView,
) -> (Option<Seq<char>>, Seq<Seq<(Seq<char>, JsonView)>>) {
    (
        if slot.clear_instruction {
            None
        } else if slot.instruction is Some {
            slot.instruction
        } else {
            instruction
        },
        match slot.demos {
            Some(rows) => rows,
            None => demos,
        },
    )
}

/// A slot without content leaves the state as it is, and one with content does the same a second
/// time as the first time.
pub proof fn slots_change_what_they_hold(
    instruction: Option<Seq<char>>,
    demos: Seq<Seq<(Seq<char>, JsonView)>>,
    slot: SlotView,
)
    ensures
        !slot.clear_instruction && slot.instruction is None && slot.demos is None ==> installed(
            instruction,
            demos,
            slot,
        ) == (instruction, demos),
        ({
            let once = installed(instruction, demos, slot);
            installed(once.0, once.1, slot) == once
        }),
{
}

/// Puts a slot of the winner into the state of its predictor.
pub fn install_slot(state: PredictState, slot: &CandidateSlot) -> (r: PredictState)
    ensures
        (text::opt_view(r.instruction_override), json::rows_view(r.demos@)) == installed(
            text::opt_view(state.instruction_override),
            json::rows_view(state.demos@),
            slot@,
        ),
{
    let instruction_override = if slot.clear_instruction {
        None
    } else {
        match &slot.instruction {
            Some(t) => Some(t.clone()),
            None => state.instruction_override,
        }
    };
    let demos = match &slot.demos {
        Some(rows) => json::clone_rows(rows),
        None => state.demos,
    };
    PredictState { instruction_override, demos }
}

/// Why a winner could not be installed: a slot names no predictor, or its predictor does not take
/// the new state.
#[derive(Debug)]
pub enum InstallError {
    Missing { name: String },
    Refused { name: String, error: String },
}

impl InstallError {
    pub open spec fn text(&self) -> Seq<char> {
        match self {
            InstallError::Missing { name } => "predictor `"@ + name@ + "` not found in the module"@,
            InstallError::Refused { name, error } => "failed to install winner on `"@ + name@
                + "`: "@ + error@,
        }
    }

    pub fn message(&self) -> (r: String)
        ensures
            r@ == self.text(),
    {
        match self {
            InstallError::Missing { name } => {
                let mut out = "predictor `".to_owned();
                out.append(name.as_str());
                out.append("` not found in the module");
                out
            },
            InstallError::Refused { name, error } => {
                let mut out = "failed to install winner on `".to_owned();
                out.append(name.as_str());
                out.append("`: ");
                out.append(error.as_str());
                out
            },
        }
    }
}

/// The position of a name, or the number of names.
pub open spec fn name_index(list: Seq<String>, name: Seq<char>, from: int) -> int
    decreases list.len() - from,
{
    if from >= list.len() || list[from]@ == name {
        from
    } else {
        name_index(list, name, from + 1)
    }
}

pub fn find_name(list: &Vec<String>, name: &str) -> (r: Option<usize>)
    ensures
        match r {
            Some(i) => i == name_index(list@, name@, 0) && i < list@.len() && list@[i as int]@
                == name@,
            None => name_index(list@, name@, 0) == list@.len() && forall|k: int|
                0 <= k < list@.len() ==> (#[trigger] list@[k])@ != name@,
        },
{
    let mut i: usize = 0;
    while i < list.len()
        invariant
            i <= list@.len(),
            name_index(list@, name@, 0) == name_index(list@, name@, i as int),
            forall|k: int| 0 <= k < i ==> (#[trigger] list@[k])@ != name@,
        decreases list@.len() - i,
    {
        if text::text_eq(list[i].as_str(), name) {
            return Some(i);
        }
        i += 1;
    }
    None
}

/// A predictor by its name, and its state.
#[verifier::ext_equal]
pub struct NamedState {
    pub name: Seq<char>,
    pub instruction: Option<Seq<char>>,
    pub demos: Seq<Seq<(Seq<char>, JsonView)>>,
}

pub open spec fn named_state(p: (String, PredictState)) -> NamedState {
    NamedState {
        name: p.0@,
        instruction: text::opt_view(p.1.instruction_override),
        demos: json::rows_view(p.1.demos@),
    }
}

pub open spec fn named_states(predictors: Seq<(String, PredictState)>) -> Seq<NamedState> {
    Seq::new(predictors.len(), |i: int| named_state(predictors[i]))
}

/// The position of the first predictor of a name at or after `from`, or the number of predictors.
pub open spec fn place(predictors: Seq<NamedState>, name: Seq<char>, from: int) -> int
    decreases predictors.len() - from,
{
    if from >= predictors.len() || predictors[from].name == name {
        from
    } else {
        place(predictors, name, from + 1)
    }
}

/// The predictors after the first `n` slots of a winner.
pub open spec fn after_slots(
    predictors: Seq<NamedState>,
    slots: Seq<(String, CandidateSlot)>,
    n: nat,
) -> Seq<NamedState>
    decreases n,
{
    if n == 0 || n > slots.len() {
        predictors
    } else {
        let before = after_slots(predictors, slots, (n - 1) as nat);
        let at = place(before, slots[n - 1].0@, 0);
        if at < before.len() {
            let new = installed(before[at].instruction, before[at].demos, slots[n - 1].1@);
            before.update(at, NamedState { instruction: new.0, demos: new.1, ..before[at] })
        } else {
            before
        }
    }
}

/// The first `n` slots have predictors, and these take their new states.
pub open spec fn slots_fit(
    predictors: Seq<NamedState>,
    slots: Seq<(String, CandidateSlot)>,
    refusals: Seq<Option<String>>,
    n: nat,
) -> bool {
    forall|k: int|
        0 <= k < n ==> place(predictors, (#[trigger] slots[k]).0@, 0) < predictors.len()
            && refusals[k] is None
}

proof fn lemma_place(predictors: Seq<NamedState>, name: Seq<char>, from: int)
    requires
        0 <= from <= predictors.len(),
    ensures
        from <= place(predictors, name, from) <= predictors.len(),
        place(predictors, name, from) < predictors.len() ==> predictors[place(
            predictors,
            name,
            from,
        )].name == name,
    decreases predictors.len() - from,
{
    if from < predictors.len() && predictors[from].name != name {
        lemma_place(predictors, name, from + 1);
    }
}

proof fn lemma_place_by_names(a: Seq<NamedState>, b: Seq<NamedState>, name: Seq<char>, from: int)
    requires
        a.len() == b.len(),
        forall|i: int| 0 <= i < a.len() ==> (#[trigger] a[i]).name == b[i].name,
        0 <= from <= a.len(),
    ensures
        place(a, name, from) == place(b, name, from),
    decreases a.len() - from,
{
    if from < a.len() {
        assert(a[from].name == b[from].name);
        if a[from].name != name {
            lemma_place_by_names(a, b, name, from + 1);
        }
    }
}

proof fn lemma_names_stay(
    predictors: Seq<NamedState>,
    slots: Seq<(String, CandidateSlot)>,
    n: nat,
)
    requires
        n <= slots.len(),
    ensures
        after_slots(predictors, slots, n).len() == predictors.len(),
        forall|i: int|
            0 <= i < predictors.len() ==> (#[trigger] after_slots(predictors, slots, n)[i]).name
                == predictors[i].name,
    decreases n,
{
    if n > 0 {
        lemma_names_stay(predictors, slots, (n - 1) as nat);
        let before = after_slots(predictors, slots, (n - 1) as nat);
        lemma_place(before, slots[n - 1].0@, 0);
    }
}

/// Predictors that no slot of a winner names keep their state.
pub proof fn unnamed_predictors_stay(
    predictors: Seq<NamedState>,
    slots: Seq<(String, CandidateSlot)>,
    n: nat,
    i: int,
)
    requires
        n <= slots.len(),
        0 <= i < predictors.len(),
        forall|k: int| 0 <= k < n ==> (#[trigger] slots[k]).0@ != predictors[i].name,
    ensures
        after_slots(predictors, slots, n)[i] == predictors[i],
    decreases n,
{
    if n > 0 {
        unnamed_predictors_stay(predictors, slots, (n - 1) as nat, i);
        let before = after_slots(predictors, slots, (n - 1) as nat);
        lemma_names_stay(predictors, slots, (n - 1) as nat);
        lemma_place(before, slots[n - 1].0@, 0);
        assert(slots[n - 1].0@ != predictors[i].name);
    }
}

fn find_state(predictors: &Vec<(String, PredictState)>, name: &str) -> (r: Option<usize>)
    ensures
        match r {
            Some(i) => i < predictors@.len() && i == place(named_states(predictors@), name@, 0),
            None => place(named_states(predictors@), name@, 0) == predictors@.len(),
        },
{
    let mut i: usize = 0;
    while i < predictors.len()
        invariant
            i <= predictors@.len(),
            place(named_states(predictors@), name@, 0) == place(
                named_states(predictors@),
                name@,
                i as int,
            ),
        decreases predictors@.len() - i,
    {
        if text::text_eq(predictors[i].0.as_str(), name) {
            return Some(i);
        }
        i += 1;
    }
    None
}

impl OptimizeTarget {
    /// Installs a winner on predictors, slot by slot: the one change of a run. `refusals` holds, for
    /// each slot, why its predictor does not take the new state, if it does not. Behind the first slot
    /// that fails nothing more is installed; what was installed before it stays.
    pub fn install(
        predictors: &mut Vec<(String, PredictState)>,
        winner: &Candidate,
        refusals: &Vec<Option<String>>,
    ) -> (r: Result<(), InstallError>)
        requires
            refusals@.len() == winner.slots@.len(),
        ensures
            ({
                let before = named_states(old(predictors)@);
                let slots = winner.slots@;
                match r {
                    Ok(_) => slots_fit(before, slots, refusals@, slots.len()) && named_states(
                        final(predictors)@,
                    ) == after_slots(before, slots, slots.len()),
                    Err(InstallError::Missing { name }) => exists|k: int|
                        0 <= k < slots.len() && name@ == (#[trigger] slots[k]).0@ && place(
                            before,
                            slots[k].0@,
                            0,
                        ) == before.len() && slots_fit(before, slots, refusals@, k as nat)
                            && named_states(final(predictors)@) == after_slots(
                            before,
                            slots,
                            k as nat,
                        ),
                    Err(InstallError::Refused { name, error }) => exists|k: int|
                        0 <= k < slots.len() && name@ == (#[trigger] slots[k]).0@ && place(
                            before,
                            slots[k].0@,
                            0,
                        ) < before.len() && text::opt_view(refusals@[k]) == Some(error@) && slots_fit(
                            before,
                            slots,
                            refusals@,
                            k as nat,
                        ) && named_states(final(predictors)@) == after_slots(
                            before,
                            slots,
                            k as nat,
                        ),
                }
            }),
    {
        let ghost before = named_states(predictors@);
        let mut i: usize = 0;
        while i < winner.slots.len()
            invariant
                i <= winner.slots@.len(),
                refusals@.len() == winner.slots@.len(),
                before == named_states(old(predictors)@),
                slots_fit(before, winner.slots@, refusals@, i as nat),
                named_states(predictors@) == after_slots(before, winner.slots@, i as nat),
            decreases winner.slots@.len() - i,
        {
            let (name, slot) = &winner.slots[i];
            proof {
                let now = named_states(predictors@);
                lemma_names_stay(before, winner.slots@, i as nat);
                lemma_place_by_names(now, before, name@, 0);
                assert(winner.slots@[i as int].0@ == name@);
            }
            match find_state(predictors, name.as_str()) {
                None => {
                    return Err(InstallError::Missing { name: name.clone() });
                },
                Some(at) => {
                    match &refusals[i] {
                        Some(error) => {
                            return Err(
                                InstallError::Refused { name: name.clone(), error: error.clone() },
                            );
                        },
                        None => {},
                    }
                    let ghost kept = predictors@;
                    let (owner, state) = predictors.remove(at);
                    let changed = install_slot(state, slot);
                    predictors.insert(at, (owner, changed));
                    proof {
                        assert(predictors@ =~= kept.update(at as int, predictors@[at as int]));
                        assert(named_states(predictors@) =~= after_slots(
                            before,
                            winner.slots@,
                            (i + 1) as nat,
                        ));
                    }
                },
            }
            i += 1;
        }
        Ok(())
    }
}

/// A demonstration: the input and the output of one call.
#[derive(Debug)]
pub struct DemoRow {
    pub input: JsonMap,
    pub output: JsonMap,
}

/// The default of a parameter of a program.
#[derive(Debug)]
pub enum ParamValue {
    Instruction { text: String },
    Demos { rows: Vec<DemoRow> },
    Other,
}

/// The signature of a leaf: its instruction and its fields, a missing description being empty.
#[derive(Debug)]
pub struct LeafSignature {
    pub instruction: String,
    pub input_fields: Vec<(String, String)>,
    pub output_fields: Vec<(String, String)>,
}

/// A node of a program, as far as optimization reads it: the name of its leaf, its signature
/// when it is a predictor or an agent, and the defaults of its parameters.
#[derive(Debug)]
pub struct ProgramNode {
    pub leaf: Option<String>,
    pub signature: Option<LeafSignature>,
    pub instruction_param: Option<ParamValue>,
    pub demos_param: Option<ParamValue>,
}

impl ProgramNode {
    pub open spec fn is_leaf(&self) -> bool {
        self.leaf is Some && self.signature is Some
    }

    /// The instruction of the leaf: the default of its parameter, or that of the signature.
    pub open spec fn leaf_instruction(&self) -> Seq<char> {
        match self.instruction_param {
            Some(ParamValue::Instruction { text }) => text@,
            _ => self.signature->0.instruction@,
        }
    }

    /// The demos of the leaf as flat rows.
    pub open spec fn leaf_demos(&self) -> Seq<Seq<(Seq<char>, JsonView)>> {
        match self.demos_param {
            Some(ParamValue::Demos { rows }) => Seq::new(
                rows@.len(),
                |i: int| harvest::demo_row(rows@[i].input, rows@[i].output),
            ),
            _ => Seq::empty(),
        }
    }

    /// The leaf is the node.
    pub open spec fn described_by(&self, leaf: LeafInfo) -> bool {
        &&& leaf.name@ == self.leaf->0@
        &&& leaf.instruction@ == self.leaf_instruction()
        &&& leaf.default_instruction@ == self.leaf_instruction()
        &&& json::rows_view(leaf.demos@) == self.leaf_demos()
        &&& leaf.input_fields@ == self.signature->0.input_fields@
        &&& leaf.output_fields@ == self.signature->0.output_fields@
    }
}

/// The positions of the leaves among the first `n` nodes.
pub open spec fn leaf_positions(nodes: Seq<ProgramNode>, n: nat) -> Seq<int>
    decreases n,
{
    if n == 0 || n > nodes.len() {
        Seq::empty()
    } else if nodes[n - 1].is_leaf() {
        leaf_positions(nodes, (n - 1) as nat).push(n - 1)
    } else {
        leaf_positions(nodes, (n - 1) as nat)
    }
}

fn flat_rows(rows: &Vec<DemoRow>) -> (r: Vec<JsonMap>)
    ensures
        json::rows_view(r@) == Seq::new(
            rows@.len(),
            |i: int| harvest::demo_row(rows@[i].input, rows@[i].output),
        ),
{
    let mut out: Vec<JsonMap> = Vec::new();
    let mut i: usize = 0;
    while i < rows.len()
        invariant
            i <= rows@.len(),
            out@.len() == i,
            forall|k: int|
                0 <= k < i ==> json::members_view((#[trigger] out@[k])@) == harvest::demo_row(
                    rows@[k].input,
                    rows@[k].output,
                ),
        decreases rows@.len() - i,
    {
        out.push(harvest::demo_from_json(&rows[i].input, &rows[i].output));
        i += 1;
    }
    proof {
        assert(json::rows_view(out@) =~= Seq::new(
            rows@.len(),
            |i: int| harvest::demo_row(rows@[i].input, rows@[i].output),
        ));
    }
    out
}

fn leaf_of(node: &ProgramNode, name: &String, sig: &LeafSignature) -> (r: LeafInfo)
    requires
        node.leaf == Some(*name),
        node.signature == Some(*sig),
    ensures
        node.described_by(r),
{
    let instruction = match &node.instruction_param {
        Some(ParamValue::Instruction { text }) => text.clone(),
        _ => sig.instruction.clone(),
    };
    let demos = match &node.demos_param {
        Some(ParamValue::Demos { rows }) => flat_rows(rows),
        _ => {
            let none: Vec<JsonMap> = Vec::new();
            proof {
                assert(json::rows_view(none@) =~= Seq::empty());
            }
            none
        },
    };
    LeafInfo {
        name: name.clone(),
        instruction: instruction.clone(),
        default_instruction: instruction,
        demos,
        input_fields: text::clone_pairs(&sig.input_fields),
        output_fields: text::clone_pairs(&sig.output_fields),
    }
}

/// The leaves of a program, in the order of its nodes.
pub fn program_leaves(nodes: &Vec<ProgramNode>) -> (r: Vec<LeafInfo>)
    ensures
        r@.len() == leaf_positions(nodes@, nodes@.len()).len(),
        forall|k: int|
            0 <= k < r@.len() ==> nodes@[leaf_positions(
                nodes@,
                nodes@.len(),
            )[k]].described_by(#[trigger] r@[k]),
{
    let mut out: Vec<LeafInfo> = Vec::new();
    let mut i: usize = 0;
    while i < nodes.len()
        invariant
            i <= nodes@.len(),
            out@.len() == leaf_positions(nodes@, i as nat).len(),
            forall|k: int|
                0 <= k < out@.len() ==> nodes@[leaf_positions(
                    nodes@,
                    i as nat,
                )[k]].described_by(#[trigger] out@[k]),
        decreases nodes@.len() - i,
    {
        match (&nodes[i].leaf, &nodes[i].signature) {
            (Some(name), Some(sig)) => {
                let leaf = leaf_of(&nodes[i], name, sig);
                out.push(leaf);
            },
            _ => {},
        }
        i += 1;
    }
    out
}

/// By what examples are known: the hashes of their content.
pub open spec fn uids_of(rows: Seq<Json>) -> Seq<u64> {
    Seq::new(rows.len(), |i: int| json::hash_of(json::canonical(rows[i]@)))
}

fn push_uids(out: &mut Vec<u64>, rows: &Vec<Json>)
    ensures
        final(out)@ == old(out)@ + uids_of(rows@),
{
    let ghost start = out@;
    let mut i: usize = 0;
    proof {
        assert(out@ =~= start + uids_of(rows@).take(0));
    }
    while i < rows.len()
        invariant
            i <= rows@.len(),
            out@ == start + uids_of(rows@).take(i as int),
        decreases rows@.len() - i,
    {
        out.push(json::canonical_hash(&rows[i]));
        i += 1;
        proof {
            assert(out@ =~= start + uids_of(rows@).take(i as int));
        }
    }
    proof {
        assert(uids_of(rows@).take(i as int) =~= uids_of(rows@));
    }
}

/// The leaf is that of the predictor.
pub open spec fn is_leaf_of(leaf: LeafInfo, named: (String, PredictorFacts)) -> bool {
    &&& leaf.name@ == named.0@
    &&& leaf.instruction == named.1.instruction
    &&& leaf.default_instruction == named.1.default_instruction
    &&& leaf.demos == named.1.demos
    &&& leaf.input_fields == named.1.input_fields
    &&& leaf.output_fields == named.1.output_fields
}

impl OptimizeTarget {
    /// A module as a target. The examples of the validation set, where there is one, come before
    /// those of the training set. `states` are the states of its predictors, by name.
    pub fn module_with_valset(
        predictors: Vec<(String, PredictorFacts)>,
        states: &Vec<(String, Json)>,
        trainset: &Vec<Json>,
        valset: Option<&Vec<Json>>,
    ) -> (r: Self)
        ensures
            r.wf(),
            r.leaves@.len() == predictors@.len(),
            forall|i: int|
                0 <= i < r.leaves@.len() ==> is_leaf_of(#[trigger] r.leaves@[i], predictors@[i]),
            is_baseline(states@, r.lane.baseline),
            match valset {
                Some(val) => r.val_len == Some(val@.len() as usize) && r.lane.uids@ == uids_of(
                    val@,
                ) + uids_of(trainset@),
                None => r.val_len is None && r.lane.uids@ == uids_of(trainset@),
            },
    {
        let ghost all = predictors@;
        let mut rest = predictors;
        let mut leaves: Vec<LeafInfo> = Vec::new();
        proof {
            assert(all.skip(0) =~= all);
        }
        while rest.len() > 0
            invariant
                leaves@.len() + rest@.len() == all.len(),
                rest@ == all.skip(leaves@.len() as int),
                forall|i: int|
                    0 <= i < leaves@.len() ==> is_leaf_of(#[trigger] leaves@[i], all[i]),
            decreases rest@.len(),
        {
            let ghost k = leaves@.len() as int;
            let (name, facts) = rest.remove(0);
            proof {
                assert((name, facts) == all[k]);
                assert(rest@ =~= all.skip(k + 1));
            }
            leaves.push(LeafInfo::from_predictor(name.as_str(), facts));
        }
        let baseline = module_baseline(states);
        let mut uids: Vec<u64> = Vec::new();
        let val_len = match valset {
            Some(val) => {
                push_uids(&mut uids, val);
                Some(val.len())
            },
            None => None,
        };
        push_uids(&mut uids, trainset);
        proof {
            match valset {
                Some(val) => {
                    assert(uids@ =~= uids_of(val@) + uids_of(trainset@));
                },
                None => {
                    assert(uids@ =~= uids_of(trainset@));
                },
            }
        }
        OptimizeTarget { lane: Lane { baseline, uids }, leaves, val_len }
    }

    /// A module as a target without a validation set.
    pub fn module(
        predictors: Vec<(String, PredictorFacts)>,
        states: &Vec<(String, Json)>,
        trainset: &Vec<Json>,
    ) -> (r: Self)
        ensures
            r.wf(),
            r.leaves@.len() == predictors@.len(),
            forall|i: int|
                0 <= i < r.leaves@.len() ==> is_leaf_of(#[trigger] r.leaves@[i], predictors@[i]),
            is_baseline(states@, r.lane.baseline),
            r.val_len is None,
            r.lane.uids@ == uids_of(trainset@),
    {
        OptimizeTarget::module_with_valset(predictors, states, trainset, None)
    }

    /// A program as a target. Its hash is what it starts from.
    pub fn program(nodes: &Vec<ProgramNode>, program_hash: u64, examples: &Vec<DemoRow>) -> (r: Self)
        ensures
            r.wf(),
            r.leaves@.len() == leaf_positions(nodes@, nodes@.len()).len(),
            forall|k: int|
                0 <= k < r.leaves@.len() ==> nodes@[leaf_positions(
                    nodes@,
                    nodes@.len(),
                )[k]].described_by(#[trigger] r.leaves@[k]),
            r.lane.baseline == program_hash,
            r.lane.uids@ == Seq::new(
                examples@.len(),
                |i: int| program_engine::row_uid(examples@[i]),
            ),
            r.val_len is None,
    {
        let leaves = program_leaves(nodes);
        let mut uids: Vec<u64> = Vec::new();
        let mut i: usize = 0;
        while i < examples.len()
            invariant
                i <= examples@.len(),
                uids@.len() == i,
                forall|k: int| 0 <= k < i ==> uids@[k] == program_engine::row_uid(examples@[k]),
            decreases examples@.len() - i,
        {
            uids.push(program_engine::example_uid(&examples[i]));
            i += 1;
        }
        OptimizeTarget { lane: Lane { baseline: program_hash, uids }, leaves, val_len: None }
    }

    /// The predictors that can be optimized.
    pub fn leaves(&self) -> (r: &Vec<LeafInfo>)
        ensures
            *r == self.leaves,
    {
        &self.leaves
    }
}

/// How outputs of a program are scored against examples.
pub trait ProgramMetric {
    fn evaluate(&self, example: &DemoRow, output: &JsonMap, trace: Option<&Trace>) -> Result<
        Eval,
        String,
    >;
}

/// The score goes out with the trace, which keeps it; or what the metric said goes out.
pub open spec fn is_scored(
    evaluated: Result<Eval, String>,
    trace: Trace,
    r: Result<(Eval, Trace), String>,
) -> bool {
    match evaluated {
        Ok(eval) => r matches Ok((given, kept)) && given == eval && kept.spans == trace.spans
            && kept.outcome == Some(eval),
        Err(e) => r matches Err(m) && m == e,
    }
}

/// What a rollout of a program gives once its output was scored: the score, and the trace that
/// keeps it. Without a score it gives what the metric said.
pub fn with_score(evaluated: Result<Eval, String>, trace: Trace) -> (r: Result<
    (Eval, Trace),
    String,
>)
    ensures
        is_scored(evaluated, trace, r),
{
    match evaluated {
        Ok(eval) => {
            let mut kept = trace;
            kept.outcome = Some(eval.clone());
            Ok((eval, kept))
        },
        Err(e) => Err(e),
    }
}

/// Ends a rollout of a program. `result` is the output, or why the program failed on the example
/// at `index`; an output is scored by the metric, which reads the example, the output and the trace.
pub fn conclude_program_rollout<M: ProgramMetric>(
    metric: &M,
    example: &DemoRow,
    index: usize,
    result: Result<JsonMap, String>,
    trace: Trace,
) -> (r: Result<(Eval, Trace), String>)
    ensures
        match result {
            Ok(output) => exists|evaluated: Result<Eval, String>| #[trigger]
                call_ensures(M::evaluate, (metric, example, &output, Some(&trace)), evaluated)
                    && is_scored(evaluated, trace, r),
            Err(e) => r matches Err(m) && m@ == "candidate failed on example "@ + text::decimal(
                index as nat,
            ) + ": "@ + e@,
        },
{
    let output = match result {
        Ok(output) => output,
        Err(e) => {
            let mut message = "candidate failed on example ".to_owned();
            text::push_decimal(&mut message, index as u64);
            message.append(": ");
            message.append(e.as_str());
            return Err(message);
        },
    };
    with_score(metric.evaluate(example, &output, Some(&trace)), trace)
}

/// What a candidate is run as on a module: its parameters. An overlay is for programs only.
pub fn bind_on_module(payload: &CandidatePayload) -> (r: Result<(), String>)
    ensures
        match payload {
            CandidatePayload::Params { .. } => r is Ok,
            CandidatePayload::Overlay(_) => r matches Err(e) && e@
                == "an ir::Overlay candidate cannot be evaluated on a module target; register a Candidate instead"@,
        },
{
    match payload {
        CandidatePayload::Params { .. } => Ok(()),
        CandidatePayload::Overlay(_) => Err(
            "an ir::Overlay candidate cannot be evaluated on a module target; register a Candidate instead".to_owned(),
        ),
    }
}

/// The line of a field: its name and its description.
pub open spec fn field_line(name: Seq<char>, description: Seq<char>) -> Seq<char> {
    "  - "@ + name + ": "@ + description + "\n"@
}

proof fn lemma_field_lines(fields: Seq<(String, String)>, n: nat, i: int)
    requires
        0 <= i < n <= fields.len(),
    ensures
        fields[i].1@.len() > 0 ==> text::occurs_at(
            field_lines(fields, n),
            field_line(fields[i].0@, fields[i].1@),
            field_lines(fields, i as nat).len() as int,
        ),
        fields[i].1@.len() == 0 ==> text::occurs_at(
            field_lines(fields, n),
            field_line(fields[i].0@, "No description"@),
            field_lines(fields, i as nat).len() as int,
        ),
        field_lines(fields, i as nat).len() < field_lines(fields, n).len(),
    decreases n,
{
    let d = if fields[n - 1].1@.len() == 0 {
        "No description"@
    } else {
        fields[n - 1].1@
    };
    let before = field_lines(fields, (n - 1) as nat);
    let line = field_line(fields[n - 1].0@, d);
    reveal_strlit("\n");
    assert(field_lines(fields, n) =~= before + line);
    if i == n - 1 {
        crate::text_laws::lemma_inside(before, line, Seq::empty());
        assert(before + line + Seq::<char>::empty() =~= before + line);
    } else {
        lemma_field_lines(fields, (n - 1) as nat, i);
        let at = field_lines(fields, i as nat).len() as int;
        let e = if fields[i].1@.len() == 0 {
            "No description"@
        } else {
            fields[i].1@
        };
        let mine = field_line(fields[i].0@, e);
        assert(field_lines(fields, n).subrange(at, at + mine.len()) =~= before.subrange(
            at,
            at + mine.len(),
        ));
    }
}

proof fn lemma_field_lines_grow(fields: Seq<(String, String)>, i: nat, j: nat)
    requires
        i < j <= fields.len(),
    ensures
        field_lines(fields, i).len() < field_lines(fields, j).len(),
    decreases j,
{
    lemma_field_lines(fields, j, i as int);
}

/// Every field is listed with its name and what is said of it, in the order of the fields.
pub proof fn every_field_is_listed(
    out: &mut String,
    fields: &Vec<(String, String)>,
    i: int,
    j: int,
)
    requires
        call_ensures(push_field_lines, (out, fields), ()),
        0 <= i < j < fields@.len(),
        fields@[i].1@.len() > 0,
        fields@[j].1@.len() > 0,
    ensures
        text::has_prefix(final(out)@, old(out)@),
        exists|a: int, b: int|
            old(out)@.len() <= a < b && #[trigger] text::occurs_at(
                final(out)@,
                "  - "@ + fields@[i].0@ + ": "@ + fields@[i].1@ + "\n"@,
                a,
            ) && #[trigger] text::occurs_at(
                final(out)@,
                "  - "@ + fields@[j].0@ + ": "@ + fields@[j].1@ + "\n"@,
                b,
            ),
{
    let all = field_lines(fields@, fields@.len());
    let o = old(out)@;
    crate::text_laws::lemma_ends(o, all);
    lemma_field_lines(fields@, fields@.len(), i);
    lemma_field_lines(fields@, fields@.len(), j);
    lemma_field_lines_grow(fields@, i as nat, j as nat);
    let a = field_lines(fields@, i as nat).len() as int;
    let b = field_lines(fields@, j as nat).len() as int;
    let x = field_line(fields@[i].0@, fields@[i].1@);
    let y = field_line(fields@[j].0@, fields@[j].1@);
    assert((o + all).subrange(o.len() + a, o.len() + a + x.len()) =~= all.subrange(a, a + x.len()));
    assert((o + all).subrange(o.len() + b, o.len() + b + y.len()) =~= all.subrange(b, b + y.len()));
    assert(text::occurs_at(final(out)@, x, o.len() + a));
    assert(text::occurs_at(final(out)@, y, o.len() + b));
}

/// A field stands in the list by its name, described or not.
pub proof fn lemma_field_is_listed(fields: Seq<(String, String)>, i: int)
    requires
        0 <= i < fields.len(),
    ensures
        text::has_text(
            field_lines(fields, fields.len()),
            "  - "@ + fields[i].0@ + ": "@ + (if fields[i].1@.len() == 0 {
                "No description"@
            } else {
                fields[i].1@
            }) + "\n"@,
        ),
{
    lemma_field_lines(fields, fields.len(), i);
}

/// What a slot sets is in force where it is installed, and what it does not set stays.
pub proof fn installed_slots_are_in_force(
    state: PredictState,
    slot: &CandidateSlot,
    r: PredictState,
)
    requires
        call_ensures(install_slot, (state, slot), r),
    ensures
        slot.clear_instruction ==> r.instruction_override is None,
        !slot.clear_instruction && slot.instruction is Some ==> r.instruction_override is Some
            && r.instruction_override->0@ == slot.instruction->0@,
        !slot.clear_instruction && slot.instruction is None ==> text::opt_view(
            r.instruction_override,
        ) == text::opt_view(state.instruction_override),
        slot.demos is Some ==> json::rows_view(r.demos@) == json::rows_view(slot.demos->0@),
        slot.demos is None ==> json::rows_view(r.demos@) == json::rows_view(state.demos@),
{
}

proof fn lemma_slot_is_installed(
    predictors: Seq<NamedState>,
    slots: Seq<(String, CandidateSlot)>,
    n: nat,
    k: int,
    i: int,
)
    requires
        0 <= k < n <= slots.len(),
        0 <= i < predictors.len(),
        slots[k].0@ == predictors[i].name,
        forall|j: int| 0 <= j < i ==> (#[trigger] predictors[j]).name != predictors[i].name,
        forall|j: int| 0 <= j < slots.len() && j != k ==> (#[trigger] slots[j]).0@ != slots[k].0@,
    ensures
        after_slots(predictors, slots, n)[i].instruction == installed(
            predictors[i].instruction,
            predictors[i].demos,
            slots[k].1@,
        ).0,
        after_slots(predictors, slots, n)[i].demos == installed(
            predictors[i].instruction,
            predictors[i].demos,
            slots[k].1@,
        ).1,
    decreases n,
{
    let before = after_slots(predictors, slots, (n - 1) as nat);
    lemma_names_stay(predictors, slots, (n - 1) as nat);
    lemma_place(before, slots[n - 1].0@, 0);
    let at = place(before, slots[n - 1].0@, 0);
    if k == n - 1 {
        unnamed_predictors_stay(predictors, slots, (n - 1) as nat, i);
        lemma_place_is(before, slots[k].0@, 0, i);
    } else {
        lemma_slot_is_installed(predictors, slots, (n - 1) as nat, k, i);
        assert(slots[n - 1].0@ != slots[k].0@);
    }
}

proof fn lemma_place_is(predictors: Seq<NamedState>, name: Seq<char>, from: int, i: int)
    requires
        0 <= from <= i < predictors.len(),
        predictors[i].name == name,
        forall|j: int| from <= j < i ==> (#[trigger] predictors[j]).name != name,
    ensures
        place(predictors, name, from) == i,
    decreases i - from,
{
    if from < i {
        assert(predictors[from].name != name);
        lemma_place_is(predictors, name, from + 1, i);
    }
}

/// A winner is installed whole: each predictor that it names gets the instruction and the demos
/// that it has for it, and the others stay as they are.
pub proof fn winners_are_installed_whole(
    predictors: &mut Vec<(String, PredictState)>,
    winner: &Candidate,
    refusals: &Vec<Option<String>>,
    r: Result<(), InstallError>,
    i: int,
    k: int,
)
    requires
        winner.wf(),
        refusals@.len() == winner.slots@.len(),
        call_ensures(OptimizeTarget::install, (predictors, winner, refusals), r),
        r is Ok,
        0 <= i < old(predictors)@.len(),
        forall|j: int|
            0 <= j < i ==> (#[trigger] old(predictors)@[j]).0@ != old(predictors)@[i].0@,
    ensures
        final(predictors)@.len() == old(predictors)@.len(),
        final(predictors)@[i].0@ == old(predictors)@[i].0@,
        0 <= k < winner.slots@.len() && winner.slots@[k].0@ == old(predictors)@[i].0@ ==> {
            let slot = winner.slots@[k].1;
            let now = final(predictors)@[i].1;
            let was = old(predictors)@[i].1;
            &&& slot.clear_instruction ==> now.instruction_override is None
            &&& !slot.clear_instruction && slot.instruction is Some ==> text::opt_view(
                now.instruction_override,
            ) == Some(slot.instruction->0@)
            &&& !slot.clear_instruction && slot.instruction is None ==> text::opt_view(
                now.instruction_override,
            ) == text::opt_view(was.instruction_override)
            &&& slot.demos is Some ==> json::rows_view(now.demos@) == json::rows_view(
                slot.demos->0@,
            )
            &&& slot.demos is None ==> json::rows_view(now.demos@) == json::rows_view(was.demos@)
        },
        (forall|j: int|
            0 <= j < winner.slots@.len() ==> (#[trigger] winner.slots@[j]).0@ != old(predictors)@[i].0@) ==> text::opt_view(final(predictors)@[i].1.instruction_override)
            == text::opt_view(old(predictors)@[i].1.instruction_override) && json::rows_view(
            final(predictors)@[i].1.demos@,
        ) == json::rows_view(old(predictors)@[i].1.demos@),
{
    let before = named_states(old(predictors)@);
    let after = named_states(final(predictors)@);
    let slots = winner.slots@;
    lemma_names_stay(before, slots, slots.len());
    assert(after.len() == final(predictors)@.len());
    assert(after[i] == named_state(final(predictors)@[i]));
    assert(before[i] == named_state(old(predictors)@[i]));
    assert forall|j: int| 0 <= j < i implies (#[trigger] before[j]).name != before[i].name by {
        assert(old(predictors)@[j].0@ != old(predictors)@[i].0@);
    }
    if 0 <= k < slots.len() && slots[k].0@ == before[i].name {
        assert forall|j: int| 0 <= j < slots.len() && j != k implies (#[trigger] slots[j]).0@
            != slots[k].0@ by {
            if slots[j].0@ == slots[k].0@ {
                names::lemma_one_position(slots, j, k);
            }
        }
        lemma_slot_is_installed(before, slots, slots.len(), k, i);
    }
    if forall|j: int| 0 <= j < slots.len() ==> (#[trigger] slots[j]).0@ != before[i].name {
        unnamed_predictors_stay(before, slots, slots.len(), i);
    }
}

/// The fields that a reflecting model reads: each by its name and what is said of it, those of
/// the input before those of the output.
pub proof fn reflecting_models_read_every_field(leaf: &LeafInfo, r: String, i: int, j: int)
    requires
        call_ensures(LeafInfo::schema_for_reflection, (leaf,), r),
        0 <= i < leaf.input_fields@.len(),
        0 <= j < leaf.output_fields@.len(),
        leaf.input_fields@[i].1@.len() > 0,
        leaf.output_fields@[j].1@.len() > 0,
    ensures
        exists|inputs: Seq<char>, outputs: Seq<char>|
            r@ == #[trigger] (inputs + outputs) && text::has_text(
                inputs,
                "  - "@ + leaf.input_fields@[i].0@ + ": "@ + leaf.input_fields@[i].1@ + "\n"@,
            ) && text::has_text(
                outputs,
                "  - "@ + leaf.output_fields@[j].0@ + ": "@ + leaf.output_fields@[j].1@ + "\n"@,
            ),
{
    let a = field_lines(leaf.input_fields@, leaf.input_fields@.len());
    let b = field_lines(leaf.output_fields@, leaf.output_fields@.len());
    lemma_field_is_listed(leaf.input_fields@, i);
    lemma_field_is_listed(leaf.output_fields@, j);
    let inputs = "Input fields:\n"@ + a;
    let outputs = "Output fields:\n"@ + b;
    crate::text_laws::lemma_ends("Input fields:\n"@, a);
    crate::text_laws::lemma_ends("Output fields:\n"@, b);
    crate::text_laws::lemma_within(
        inputs,
        a,
        "  - "@ + leaf.input_fields@[i].0@ + ": "@ + leaf.input_fields@[i].1@ + "\n"@,
    );
    crate::text_laws::lemma_within(
        outputs,
        b,
        "  - "@ + leaf.output_fields@[j].0@ + ": "@ + leaf.output_fields@[j].1@ + "\n"@,
    );
    crate::text_laws::lemma_grouped(inputs, "Output fields:\n"@, b);
}

/// Every example of a module goes by the hash of its own row: those of the validation set first,
/// then those of the training set. The predictors become leaves, in order.
pub proof fn examples_go_by_their_own_rows(
    predictors: Vec<(String, PredictorFacts)>,
    states: &Vec<(String, Json)>,
    trainset: &Vec<Json>,
    valset: &Vec<Json>,
    r: OptimizeTarget,
    e: usize,
    i: int,
    source: ExampleSource,
    hash: u64,
)
    requires
        call_ensures(
            OptimizeTarget::module_with_valset,
            (predictors, states, trainset, Some(valset)),
            r,
        ),
        e < valset@.len() + trainset@.len(),
        call_ensures(example_source, (valset.len(), e), source),
        (source matches ExampleSource::Validation(k) && call_ensures(
            json::canonical_hash,
            (&valset@[k as int],),
            hash,
        )) || (source matches ExampleSource::Training(k) && call_ensures(
            json::canonical_hash,
            (&trainset@[k as int],),
            hash,
        )),
    ensures
        r.lane.uids@.len() == valset@.len() + trainset@.len(),
        r.lane.uids@[e as int] == hash,
        e < valset@.len() <==> source is Validation,
        0 <= i < predictors@.len() ==> r.leaves@[i].name@ == predictors@[i].0@
            && r.leaves@[i].instruction == predictors@[i].1.instruction && r.leaves@[i].demos
            == predictors@[i].1.demos,
{
    let v = uids_of(valset@);
    let t = uids_of(trainset@);
    assert(valset@.len() == valset.len());
    assert((v + t).len() == v.len() + t.len());
    if 0 <= i < predictors@.len() {
        assert(is_leaf_of(r.leaves@[i], predictors@[i]));
    }
}

proof fn lemma_leaf_position(nodes: Seq<ProgramNode>, n: nat, i: int) -> (k: int)
    requires
        0 <= i < n <= nodes.len(),
        nodes[i].is_leaf(),
    ensures
        0 <= k < leaf_positions(nodes, n).len(),
        leaf_positions(nodes, n)[k] == i,
    decreases n,
{
    if i == n - 1 {
        leaf_positions(nodes, (n - 1) as nat).len() as int
    } else {
        lemma_leaf_position(nodes, (n - 1) as nat, i)
    }
}

/// Every node of a program with a name and a signature is a leaf that can be optimized, with the
/// instruction that is in force for it.
pub proof fn every_named_node_is_a_leaf(nodes: &Vec<ProgramNode>, r: Vec<LeafInfo>, i: int)
    requires
        call_ensures(program_leaves, (nodes,), r),
        0 <= i < nodes@.len(),
        nodes@[i].leaf is Some,
        nodes@[i].signature is Some,
    ensures
        exists|k: int|
            0 <= k < r@.len() && (#[trigger] r@[k]).name@ == nodes@[i].leaf->0@ && (
            nodes@[i].instruction_param is None ==> r@[k].instruction@
                == nodes@[i].signature->0.instruction@) && (
            nodes@[i].instruction_param matches Some(ParamValue::Instruction { text })
                ==> r@[k].instruction@ == text@) && r@[k].input_fields@
                == nodes@[i].signature->0.input_fields@ && r@[k].output_fields@
                == nodes@[i].signature->0.output_fields@,
{
    let k = lemma_leaf_position(nodes@, nodes@.len(), i);
    assert(nodes@[leaf_positions(nodes@, nodes@.len())[k]].described_by(r@[k]));
}

/// The score of a rollout is the one that the metric gave, and the trace keeps it.
pub proof fn scores_are_kept_with_the_trace(
    evaluated: Result<Eval, String>,
    trace: Trace,
    r: Result<(Eval, Trace), String>,
)
    requires
        call_ensures(with_score, (evaluated, trace), r),
    ensures
        r is Ok <==> evaluated is Ok,
        r is Ok ==> r->Ok_0.0 == evaluated->Ok_0 && r->Ok_0.1.outcome == Some(evaluated->Ok_0)
            && r->Ok_0.1.spans == trace.spans,
        r is Err ==> r->Err_0 == evaluated->Err_0,
{
}

proof fn lemma_leaf_index(leaves: Seq<LeafInfo>, name: Seq<char>, from: int, j: int)
    requires
        0 <= from <= leaves.len(),
    ensures
        from <= leaf_index(leaves, name, from) <= leaves.len(),
        from <= j < leaf_index(leaves, name, from) ==> leaves[j].name@ != name,
    decreases leaves.len() - from,
{
    if from < leaves.len() && leaves[from].name@ != name {
        lemma_leaf_index(leaves, name, from + 1, j);
    }
}

/// A predictor is found by its name exactly where there is one of that name, and it is the first.
pub proof fn predictors_are_found_by_name(
    leaves: &Vec<LeafInfo>,
    name: &str,
    r: Option<usize>,
    j: int,
)
    requires
        call_ensures(find_leaf, (leaves, name), r),
        0 <= j < leaves@.len(),
    ensures
        r matches Some(i) ==> i < leaves@.len() && leaves@[i as int].name@ == name@ && (j < i
            ==> leaves@[j].name@ != name@),
        leaves@[j].name@ == name@ ==> r is Some,
{
    lemma_leaf_index(leaves@, name@, 0, j);
}

/// A winner that could not be installed is reported with the name of its predictor, and with why.
pub proof fn failed_installs_are_named(e: &InstallError, r: String)
    requires
        call_ensures(InstallError::message, (e,), r),
    ensures
        *e matches InstallError::Missing { name } ==> text::has_text(r@, name@),
        *e matches InstallError::Refused { name, error } ==> text::has_text(r@, name@)
            && text::has_suffix(r@, error@),
{
    match *e {
        InstallError::Missing { name } => {
            text_laws::lemma_inside("predictor `"@, name@, "` not found in the module"@);
        },
        InstallError::Refused { name, error } => {
            let head = "failed to install winner on `"@;
            text_laws::lemma_ends(head + name@ + "`: "@, error@);
            text_laws::lemma_grouped(head + name@, "`: "@, error@);
            text_laws::lemma_inside(head, name@, "`: "@ + error@);
        },
    }
}

} // verus!
