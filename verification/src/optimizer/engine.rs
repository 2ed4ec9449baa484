//! Candidates, their content hash, budgets, the rollout cache and the score matrix.

use vstd::prelude::*;

use crate::json;
use crate::json::{Json, JsonMap, JsonView};
use crate::names;
use crate::text;
use crate::trace::{Eval, LmUsage};

verus! {

/// What a candidate changes of one predictor. An instruction that is cleared differs from one
/// that is left alone.
#[derive(Debug)]
pub struct CandidateSlot {
    pub instruction: Option<String>,
    pub clear_instruction: bool,
    pub demos: Option<Vec<JsonMap>>,
}

/// The content of a slot.
#[verifier::ext_equal]
pub struct SlotView {
    pub instruction: Option<Seq<char>>,
    pub clear_instruction: bool,
    pub demos: Option<Seq<Seq<(Seq<char>, JsonView)>>>,
}

pub open spec fn string_view(s: Option<String>) -> Option<Seq<char>> {
    match s {
        Some(s) => Some(s@),
        None => None,
    }
}

impl View for CandidateSlot {
    type V = SlotView;

    open spec fn view(&self) -> SlotView {
        SlotView {
            instruction: string_view(self.instruction),
            clear_instruction: self.clear_instruction,
            demos: match self.demos {
                Some(rows) => Some(json::rows_view(rows@)),
                None => None,
            },
        }
    }
}

impl SlotView {
    /// A slot that changes nothing.
    pub open spec fn empty() -> SlotView {
        SlotView { instruction: None, clear_instruction: false, demos: None }
    }

    /// The slot changes something.
    pub open spec fn has_content(&self) -> bool {
        self.clear_instruction || self.instruction is Some || self.demos is Some
    }

    /// The slot with a cleared instruction left out: clearing it wins over setting it.
    pub open spec fn settled(self) -> SlotView {
        SlotView {
            instruction: if self.clear_instruction {
                None
            } else {
                self.instruction
            },
            ..self
        }
    }
}

/// No slot both sets and clears an instruction.
pub open spec fn exclusive(slots: Map<Seq<char>, SlotView>) -> bool {
    forall|n: Seq<char>| #[trigger]
        slots.dom().contains(n) && slots[n].clear_instruction ==> slots[n].instruction is None
}

impl Default for CandidateSlot {
    fn default() -> (r: Self)
        ensures
            r@ == SlotView::empty(),
    {
        CandidateSlot { instruction: None, clear_instruction: false, demos: None }
    }
}

impl Clone for CandidateSlot {
    fn clone(&self) -> (r: Self)
        ensures
            r@ == self@,
    {
        let instruction = match &self.instruction {
            Some(text) => Some(text.clone()),
            None => None,
        };
        let demos = match &self.demos {
            Some(rows) => Some(json::clone_rows(rows)),
            None => None,
        };
        CandidateSlot { instruction, clear_instruction: self.clear_instruction, demos }
    }
}

/// The members of a slot as an object: only what the slot changes is written.
pub open spec fn slot_members(slot: SlotView) -> Seq<(Seq<char>, JsonView)> {
    let instruction = match slot.instruction {
        Some(t) => seq![("instruction"@, JsonView::Str(t))],
        None => Seq::empty(),
    };
    let clear = if slot.clear_instruction {
        seq![("clear_instruction"@, JsonView::Bool(true))]
    } else {
        Seq::empty()
    };
    let demos = match slot.demos {
        Some(rows) => seq![("demos"@, rows_json(rows))],
        None => Seq::empty(),
    };
    instruction + clear + demos
}

/// The rows as an array of objects.
pub open spec fn rows_json(rows: Seq<Seq<(Seq<char>, JsonView)>>) -> JsonView {
    JsonView::Array(Seq::new(rows.len(), |i: int| JsonView::Object(rows[i])))
}

fn rows_to_json(rows: &Vec<JsonMap>) -> (r: Json)
    ensures
        r@ == rows_json(json::rows_view(rows@)),
{
    let mut items: Vec<Json> = Vec::new();
    let mut i: usize = 0;
    while i < rows.len()
        invariant
            i <= rows@.len(),
            items@.len() == i,
            forall|j: int|
                0 <= j < i ==> (#[trigger] items@[j])@ == JsonView::Object(
                    json::members_view(rows@[j]@),
                ),
        decreases rows@.len() - i,
    {
        items.push(json::object(json::clone_map(&rows[i])));
        i += 1;
    }
    proof {
        let rows_v = json::rows_view(rows@);
        assert(json::items_view(items@) =~= Seq::new(
            rows_v.len(),
            |i: int| JsonView::Object(rows_v[i]),
        ));
    }
    json::array(items)
}

fn slot_to_json(slot: &CandidateSlot) -> (r: Json)
    ensures
        r@ == JsonView::Object(slot_members(slot@)),
{
    let mut members: Vec<(String, Json)> = Vec::new();
    match &slot.instruction {
        Some(t) => {
            members.push(("instruction".to_owned(), Json::Str(t.clone())));
        },
        None => {},
    }
    if slot.clear_instruction {
        members.push(("clear_instruction".to_owned(), Json::Bool(true)));
    }
    match &slot.demos {
        Some(rows) => {
            members.push(("demos".to_owned(), rows_to_json(rows)));
        },
        None => {},
    }
    proof {
        assert(json::members_view(members@) =~= slot_members(slot@));
    }
    json::object(members)
}

/// A change to a program: for each predictor it names, what it changes there.
#[derive(Debug)]
pub struct Candidate {
    pub slots: Vec<(String, CandidateSlot)>,
}

/// The slots by name.
pub open spec fn slot_map(slots: Seq<(String, CandidateSlot)>) -> Map<Seq<char>, SlotView> {
    names::map_of(slots).map_values(|s: CandidateSlot| s@)
}

/// The slots in the order of their names.
pub open spec fn slot_entries(slots: Seq<(String, CandidateSlot)>) -> Seq<(Seq<char>, SlotView)> {
    Seq::new(slots.len(), |i: int| (slots[i].0@, slots[i].1@))
}

impl View for Candidate {
    type V = Map<Seq<char>, SlotView>;

    open spec fn view(&self) -> Map<Seq<char>, SlotView> {
        slot_map(self.slots@)
    }
}

/// The slot of a name, empty when the candidate has none.
pub open spec fn slot_of(m: Map<Seq<char>, SlotView>, name: Seq<char>) -> SlotView {
    if m.dom().contains(name) {
        m[name]
    } else {
        SlotView::empty()
    }
}

/// The candidate as a JSON object.
pub open spec fn candidate_json(entries: Seq<(Seq<char>, SlotView)>) -> JsonView {
    JsonView::Object(
        seq![
            (
                "slots"@,
                JsonView::Object(
                    Seq::new(
                        entries.len(),
                        |i: int| (entries[i].0, JsonView::Object(slot_members(entries[i].1))),
                    ),
                ),
            ),
        ],
    )
}

impl Candidate {
    /// Names are sorted and distinct.
    pub open spec fn wf(&self) -> bool {
        names::sorted_names(self.slots@)
    }

    pub open spec fn entries(&self) -> Seq<(Seq<char>, SlotView)> {
        slot_entries(self.slots@)
    }

    /// The content hash of the candidate.
    pub open spec fn content_hash(&self) -> u64 {
        json::hash_of(json::canonical(candidate_json(self.entries())))
    }

    /// The candidate that changes nothing.
    pub fn new() -> (r: Self)
        ensures
            r.wf(),
            r@ == Map::<Seq<char>, SlotView>::empty(),
    {
        let r = Candidate { slots: Vec::new() };
        proof {
            assert(r@ =~= Map::<Seq<char>, SlotView>::empty());
        }
        r
    }

    /// The candidate that sets one instruction.
    pub fn with_instruction(name: &str, instruction: &str) -> (r: Self)
        ensures
            r.wf(),
            r@ == Map::<Seq<char>, SlotView>::empty().insert(
                name@,
                SlotView {
                    instruction: Some(instruction@),
                    clear_instruction: false,
                    demos: None,
                },
            ),
    {
        let mut candidate = Candidate::new();
        candidate.set_instruction(name, instruction);
        candidate
    }

    fn take_slot(&mut self, name: &str) -> (r: CandidateSlot)
        requires
            old(self).wf(),
        ensures
            final(self).wf(),
            final(self)@ == old(self)@.remove(name@),
            r@ == slot_of(old(self)@, name@),
    {
        let taken = names::take(&mut self.slots, name);
        proof {
            assert(self@ =~= old(self)@.remove(name@));
        }
        match taken {
            Some(slot) => slot,
            None => CandidateSlot::default(),
        }
    }

    fn put_slot(&mut self, name: &str, slot: CandidateSlot)
        requires
            old(self).wf(),
        ensures
            final(self).wf(),
            final(self)@ == old(self)@.insert(name@, slot@),
    {
        names::put(&mut self.slots, name.to_owned(), slot);
        proof {
            assert(self@ =~= old(self)@.insert(name@, slot@));
        }
    }

    /// Sets the instruction of a predictor; its demos stay as they are. Gives the candidate back, as
    /// the other two setters do.
    pub fn set_instruction(&mut self, name: &str, instruction: &str) -> (r: &mut Self)
        requires
            old(self).wf(),
        ensures
            r.wf(),
            r@ == old(self)@.insert(
                name@,
                SlotView {
                    instruction: Some(instruction@),
                    clear_instruction: false,
                    demos: slot_of(old(self)@, name@).demos,
                },
            ),
            exclusive(old(self)@) ==> exclusive(r@),
            *final(self) == *final(r),
    {
        let slot = self.take_slot(name);
        let updated = CandidateSlot {
            instruction: Some(instruction.to_owned()),
            clear_instruction: false,
            demos: slot.demos,
        };
        self.put_slot(name, updated);
        proof {
            assert(self@ =~= old(self)@.insert(name@, updated@));
        }
        self
    }

    /// Clears the instruction of a predictor; its demos stay as they are.
    pub fn clear_instruction(&mut self, name: &str) -> (r: &mut Self)
        requires
            old(self).wf(),
        ensures
            r.wf(),
            r@ == old(self)@.insert(
                name@,
                SlotView {
                    instruction: None,
                    clear_instruction: true,
                    demos: slot_of(old(self)@, name@).demos,
                },
            ),
            exclusive(old(self)@) ==> exclusive(r@),
            *final(self) == *final(r),
    {
        let slot = self.take_slot(name);
        let updated = CandidateSlot {
            instruction: None,
            clear_instruction: true,
            demos: slot.demos,
        };
        self.put_slot(name, updated);
        proof {
            assert(self@ =~= old(self)@.insert(name@, updated@));
        }
        self
    }

    /// Sets the demos of a predictor; its instruction stays as it is.
    pub fn set_demos(&mut self, name: &str, demos: Vec<JsonMap>) -> (r: &mut Self)
        requires
            old(self).wf(),
        ensures
            r.wf(),
            r@ == old(self)@.insert(
                name@,
                (SlotView {
                    demos: Some(json::rows_view(demos@)),
                    ..slot_of(old(self)@, name@)
                }),
            ),
            exclusive(old(self)@) ==> exclusive(r@),
            *final(self) == *final(r),
    {
        let slot = self.take_slot(name);
        let updated = CandidateSlot {
            instruction: slot.instruction,
            clear_instruction: slot.clear_instruction,
            demos: Some(demos),
        };
        self.put_slot(name, updated);
        proof {
            assert(self@ =~= old(self)@.insert(name@, updated@));
        }
        self
    }

    /// The instruction that the candidate sets for a predictor.
    pub fn instruction_of(&self, name: &str) -> (r: Option<&str>)
        requires
            self.wf(),
        ensures
            match r {
                Some(t) => slot_of(self@, name@).instruction == Some(t@),
                None => slot_of(self@, name@).instruction is None,
            },
    {
        match names::get(&self.slots, name) {
            Some(slot) => match &slot.instruction {
                Some(t) => Some(t.as_str()),
                None => None,
            },
            None => None,
        }
    }

    /// The demos that the candidate sets for a predictor.
    pub fn demos_of(&self, name: &str) -> (r: Option<&Vec<JsonMap>>)
        requires
            self.wf(),
        ensures
            match r {
                Some(rows) => slot_of(self@, name@).demos == Some(json::rows_view(rows@)),
                None => slot_of(self@, name@).demos is None,
            },
    {
        match names::get(&self.slots, name) {
            Some(slot) => match &slot.demos {
                Some(rows) => Some(rows),
                None => None,
            },
            None => None,
        }
    }

    /// Whether the candidate names no predictor.
    pub fn is_empty(&self) -> (r: bool)
        requires
            self.wf(),
        ensures
            r == (self@ == Map::<Seq<char>, SlotView>::empty()),
    {
        proof {
            if self.slots@.len() == 0 {
                assert(self@ =~= Map::<Seq<char>, SlotView>::empty());
            } else {
                names::lemma_map_at(self.slots@, 0);
                assert(self@.dom().contains(self.slots@[0].0@));
            }
        }
        self.slots.len() == 0
    }

    /// The candidate as a JSON object.
    pub fn to_json(&self) -> (r: Json)
        ensures
            r@ == candidate_json(self.entries()),
    {
        let mut members: Vec<(String, Json)> = Vec::new();
        let mut i: usize = 0;
        while i < self.slots.len()
            invariant
                i <= self.slots@.len(),
                members@.len() == i,
                forall|j: int|
                    0 <= j < i ==> (#[trigger] members@[j]).0@ == self.slots@[j].0@
                        && members@[j].1@ == JsonView::Object(slot_members(self.slots@[j].1@)),
            decreases self.slots@.len() - i,
        {
            let value = slot_to_json(&self.slots[i].1);
            members.push((self.slots[i].0.clone(), value));
            i += 1;
        }
        let ghost entries = self.entries();
        proof {
            assert(json::members_view(members@) =~= Seq::new(
                entries.len(),
                |i: int| (entries[i].0, JsonView::Object(slot_members(entries[i].1))),
            ));
        }
        let slots = json::object(members);
        let mut outer: Vec<(String, Json)> = Vec::new();
        outer.push(("slots".to_owned(), slots));
        proof {
            assert(json::members_view(outer@) =~= seq![("slots"@, slots@)]);
        }
        json::object(outer)
    }

    /// A hash of the content alone: the same in every process and for every order in which
    /// the content was set.
    pub fn stable_hash(&self) -> (r: u64)
        ensures
            r == self.content_hash(),
    {
        let value = self.to_json();
        json::canonical_hash(&value)
    }

    /// What the candidate changes, as parameters of a run. A slot that changes nothing is
    /// left out. An explicit clear is kept, and wins over an instruction beside it.
    pub fn to_params(&self) -> (r: Params)
        requires
            self.wf(),
        ensures
            r.wf(),
            forall|n: Seq<char>| #[trigger]
                r@.dom().contains(n) <==> self@.dom().contains(n) && self@[n].has_content(),
            forall|n: Seq<char>| #[trigger] r@.dom().contains(n) ==> r@[n] == self@[n].settled(),
    {
        let mut slots: Vec<(String, CandidateSlot)> = Vec::new();
        let mut i: usize = 0;
        proof {
            assert(slot_map(slots@) =~= Map::empty());
        }
        while i < self.slots.len()
            invariant
                i <= self.slots@.len(),
                self.wf(),
                names::sorted_names(slots@),
                forall|n: Seq<char>| #[trigger]
                    slot_map(slots@).dom().contains(n) ==> self@.dom().contains(n)
                        && self@[n].has_content() && slot_map(slots@)[n] == self@[n].settled(),
                forall|j: int|
                    0 <= j < i && (#[trigger] self.slots@[j]).1@.has_content() ==> slot_map(
                        slots@,
                    ).dom().contains(self.slots@[j].0@),
            decreases self.slots@.len() - i,
        {
            let held = self.slots[i].1.clone();
            let slot = CandidateSlot {
                instruction: if held.clear_instruction {
                    None
                } else {
                    held.instruction
                },
                clear_instruction: held.clear_instruction,
                demos: held.demos,
            };
            proof {
                names::lemma_map_at(self.slots@, i as int);
            }
            if slot.clear_instruction || slot.instruction.is_some() || slot.demos.is_some() {
                let ghost before = slots@;
                names::put(&mut slots, self.slots[i].0.clone(), slot);
                proof {
                    assert(slot_map(slots@) =~= slot_map(before).insert(
                        self.slots@[i as int].0@,
                        slot@,
                    ));
                }
            }
            i += 1;
        }
        proof {
            assert forall|n: Seq<char>|
                self@.dom().contains(n) && self@[n].has_content() implies #[trigger] slot_map(
                slots@,
            ).dom().contains(n) by {
                let k = choose|k: int| names::is_at(self.slots@, n, k);
                names::lemma_map_at(self.slots@, k);
                assert(self.slots@[k].1@.has_content());
            }
        }
        Params { slots }
    }
}

impl Default for Candidate {
    fn default() -> (r: Self)
        ensures
            r.wf(),
            r@ == Map::<Seq<char>, SlotView>::empty(),
    {
        Candidate::new()
    }
}

impl Clone for Candidate {
    fn clone(&self) -> (r: Self)
        ensures
            r.entries() == self.entries(),
            self.wf() ==> r.wf() && r@ == self@,
    {
        let mut slots: Vec<(String, CandidateSlot)> = Vec::new();
        let mut i: usize = 0;
        while i < self.slots.len()
            invariant
                i <= self.slots@.len(),
                slots@.len() == i,
                forall|j: int|
                    0 <= j < i ==> (#[trigger] slots@[j]).0 == self.slots@[j].0 && slots@[j].1@
                        == self.slots@[j].1@,
            decreases self.slots@.len() - i,
        {
            slots.push((self.slots[i].0.clone(), self.slots[i].1.clone()));
            i += 1;
        }
        proof {
            assert(slot_entries(slots@) =~= slot_entries(self.slots@));
            assert forall|n: Seq<char>, k: int| names::is_at(slots@, n, k) == names::is_at(
                self.slots@,
                n,
                k,
            ) by {
                if 0 <= k < slots@.len() {
                    assert(slots@[k].0 == self.slots@[k].0);
                }
            }
            assert forall|n: Seq<char>| names::named(slots@, n) == names::named(self.slots@, n) by {
                if names::named(slots@, n) {
                    let k = choose|k: int| names::is_at(slots@, n, k);
                    assert(names::is_at(self.slots@, n, k));
                }
                if names::named(self.slots@, n) {
                    let k = choose|k: int| names::is_at(self.slots@, n, k);
                    assert(names::is_at(slots@, n, k));
                }
            }
            if self.wf() {
                assert forall|n: Seq<char>| names::named(slots@, n) implies slot_map(slots@)[n]
                    == slot_map(self.slots@)[n] by {
                    let k = choose|k: int| names::is_at(slots@, n, k);
                    let l = choose|k: int| names::is_at(self.slots@, n, k);
                    assert(names::is_at(self.slots@, n, k));
                    names::lemma_one_position(self.slots@, k, l);
                    assert(slots@[k].1@ == self.slots@[k].1@);
                }
                assert(slot_map(slots@) =~= slot_map(self.slots@));
                assert forall|i: int, j: int| 0 <= i < j < slots@.len() implies text::lex_less(
                    #[trigger] slots@[i].0@,
                    #[trigger] slots@[j].0@,
                ) by {
                    assert(slots@[i].0 == self.slots@[i].0 && slots@[j].0 == self.slots@[j].0);
                }
            }
        }
        let r = Candidate { slots };
        proof {
            if self.wf() {
                assert(r@ == self@);
            }
        }
        r
    }
}

/// What a run takes from a candidate.
#[derive(Debug)]
pub struct Params {
    pub slots: Vec<(String, CandidateSlot)>,
}

impl View for Params {
    type V = Map<Seq<char>, SlotView>;

    open spec fn view(&self) -> Map<Seq<char>, SlotView> {
        slot_map(self.slots@)
    }
}

impl Params {
    pub open spec fn wf(&self) -> bool {
        names::sorted_names(self.slots@)
    }

    /// The parameters of a predictor.
    pub fn get(&self, name: &str) -> (r: Option<&CandidateSlot>)
        requires
            self.wf(),
        ensures
            match r {
                Some(slot) => self@.dom().contains(name@) && self@[name@] == slot@,
                None => !self@.dom().contains(name@),
            },
    {
        names::get(&self.slots, name)
    }
}

/// Caps on what an optimization may spend. `None` is no cap.
#[derive(Clone, Copy, Debug, PartialEq, Eq, Structural)]
pub struct Budget {
    pub max_metric_calls: Option<usize>,
    pub max_lm_calls: Option<usize>,
    pub max_tokens: Option<u64>,
}

/// What has been spent.
#[derive(Clone, Copy, Debug, PartialEq, Eq, Structural)]
pub struct Spend {
    pub metric_calls: usize,
    pub lm_calls: usize,
    pub lm_spans: usize,
    pub cache_hits: usize,
    pub tokens: LmUsage,
}

impl Default for Spend {
    fn default() -> (r: Self)
        ensures
            r == (Spend {
                metric_calls: 0,
                lm_calls: 0,
                lm_spans: 0,
                cache_hits: 0,
                tokens: LmUsage::zero(),
            }),
    {
        Spend {
            metric_calls: 0,
            lm_calls: 0,
            lm_spans: 0,
            cache_hits: 0,
            tokens: LmUsage::default(),
        }
    }
}

/// The sum, or the largest count when it does not fit.
pub open spec fn capped_sum(a: usize, b: usize) -> int {
    if a + b > usize::MAX {
        usize::MAX as int
    } else {
        a + b
    }
}

/// The cap admits the count.
pub open spec fn within(cap: Option<usize>, count: int) -> bool {
    match cap {
        Some(max) => count <= max,
        None => true,
    }
}

impl Budget {
    /// The budget admits this many further rollouts: none at all always, and otherwise those
    /// after which neither call cap is exceeded, as long as tokens are left.
    pub open spec fn admits(&self, spend: Spend, upcoming: usize) -> bool {
        upcoming == 0 || {
            &&& within(self.max_metric_calls, capped_sum(spend.metric_calls, upcoming))
            &&& within(self.max_lm_calls, capped_sum(spend.lm_calls, upcoming))
            &&& match self.max_tokens {
                Some(max) => spend.tokens.total_tokens < max,
                None => true,
            }
        }
    }

    pub fn unlimited() -> (r: Self)
        ensures
            r == (Budget { max_metric_calls: None, max_lm_calls: None, max_tokens: None }),
    {
        Budget { max_metric_calls: None, max_lm_calls: None, max_tokens: None }
    }

    pub fn allows(&self, spend: &Spend, upcoming_rollouts: usize) -> (r: bool)
        ensures
            r == self.admits(*spend, upcoming_rollouts),
    {
        if upcoming_rollouts == 0 {
            return true;
        }
        match self.max_metric_calls {
            Some(max) => {
                if spend.metric_calls.saturating_add(upcoming_rollouts) > max {
                    return false;
                }
            },
            None => {},
        }
        match self.max_lm_calls {
            Some(max) => {
                if spend.lm_calls.saturating_add(upcoming_rollouts) > max {
                    return false;
                }
            },
            None => {},
        }
        match self.max_tokens {
            Some(max) => {
                if spend.tokens.total_tokens >= max {
                    return false;
                }
            },
            None => {},
        }
        true
    }
}

impl Default for Budget {
    fn default() -> (r: Self)
        ensures
            r == (Budget { max_metric_calls: None, max_lm_calls: None, max_tokens: None }),
    {
        Budget::unlimited()
    }
}

/// Spending more never makes room.
pub proof fn budget_is_monotone(budget: Budget, less: Spend, more: Spend, few: usize, many: usize)
    requires
        less.metric_calls <= more.metric_calls,
        less.lm_calls <= more.lm_calls,
        less.tokens.total_tokens <= more.tokens.total_tokens,
        0 < few <= many,
        budget.admits(more, many),
    ensures
        budget.admits(less, few),
{
}

/// Rollouts that need no call are always within the budget.
pub proof fn no_rollouts_are_always_admitted(budget: Budget, spend: Spend)
    ensures
        budget.admits(spend, 0),
{
}

/// The last `digits` hexadecimal digits of a number.
pub open spec fn hex(n: nat, digits: nat) -> Seq<char>
    decreases digits,
{
    if digits == 0 {
        Seq::empty()
    } else {
        hex(n / 16, (digits - 1) as nat).push(hex_digit(n % 16))
    }
}

pub open spec fn hex_digit(d: nat) -> char {
    if d < 10 {
        ((48 + d) as u8) as char
    } else {
        ((87 + d) as u8) as char
    }
}

pub fn push_hex(out: &mut String, n: u64, digits: usize)
    ensures
        final(out)@ == old(out)@ + hex(n as nat, digits as nat),
    decreases digits,
{
    if digits == 0 {
        proof {
            assert(out@ =~= old(out)@ + hex(n as nat, 0));
        }
    } else {
        push_hex(out, n / 16, digits - 1);
        let d: u8 = (n % 16) as u8;
        let c: char = if d < 10 {
            (48u8 + d) as char
        } else {
            (87u8 + d) as char
        };
        out.push(c);
        proof {
            assert(out@ =~= old(out)@ + hex(n as nat, digits as nat));
        }
    }
}

/// The key under which a rollout is cached.
pub open spec fn cache_key(baseline: u64, candidate: u64, example: u64, salt: u64) -> Seq<char> {
    hex(baseline as nat, 16) + ":"@ + hex(candidate as nat, 16) + ":"@ + hex(example as nat, 16)
        + ":"@ + hex(salt as nat, 16)
}

/// Evaluations of rollouts that were already made.
#[derive(Debug)]
pub struct RolloutCache {
    entries: Vec<(String, Eval)>,
}

impl View for RolloutCache {
    type V = Map<Seq<char>, Eval>;

    closed spec fn view(&self) -> Map<Seq<char>, Eval> {
        names::map_of(self.entries@)
    }
}

impl RolloutCache {
    pub closed spec fn wf(&self) -> bool {
        names::sorted_names(self.entries@)
    }

    pub fn new() -> (r: Self)
        ensures
            r.wf(),
            r@ == Map::<Seq<char>, Eval>::empty(),
    {
        let r = RolloutCache { entries: Vec::new() };
        proof {
            assert(r@ =~= Map::<Seq<char>, Eval>::empty());
        }
        r
    }

    pub fn key(baseline: u64, candidate: u64, example: u64, salt: u64) -> (r: String)
        ensures
            r@ == cache_key(baseline, candidate, example, salt),
    {
        let mut out = String::new();
        push_hex(&mut out, baseline, 16);
        out.append(":");
        push_hex(&mut out, candidate, 16);
        out.append(":");
        push_hex(&mut out, example, 16);
        out.append(":");
        push_hex(&mut out, salt, 16);
        proof {
            assert(out@ =~= cache_key(baseline, candidate, example, salt));
        }
        out
    }

    pub fn get(&self, baseline: u64, candidate: u64, example: u64, salt: u64) -> (r: Option<&Eval>)
        requires
            self.wf(),
        ensures
            match r {
                Some(eval) => self@.dom().contains(cache_key(baseline, candidate, example, salt))
                    && self@[cache_key(baseline, candidate, example, salt)] == *eval,
                None => !self@.dom().contains(cache_key(baseline, candidate, example, salt)),
            },
    {
        let key = RolloutCache::key(baseline, candidate, example, salt);
        names::get(&self.entries, key.as_str())
    }

    pub fn insert(
        &mut self,
        baseline: u64,
        candidate: u64,
        example: u64,
        salt: u64,
        eval: Eval,
    )
        requires
            old(self).wf(),
        ensures
            final(self).wf(),
            final(self)@ == old(self)@.insert(
                cache_key(baseline, candidate, example, salt),
                eval,
            ),
    {
        let key = RolloutCache::key(baseline, candidate, example, salt);
        names::put(&mut self.entries, key, eval);
    }

    pub fn len(&self) -> (r: usize)
        requires
            self.wf(),
        ensures
            self@.dom().finite(),
            r == self@.dom().len(),
    {
        proof {
            names::lemma_map_len(self.entries@);
        }
        self.entries.len()
    }

    pub fn is_empty(&self) -> (r: bool)
        requires
            self.wf(),
        ensures
            r == (self@ == Map::<Seq<char>, Eval>::empty()),
    {
        proof {
            if self.entries@.len() == 0 {
                assert(self@ =~= Map::<Seq<char>, Eval>::empty());
            } else {
                names::lemma_map_at(self.entries@, 0);
                assert(self@.dom().contains(self.entries@[0].0@));
            }
        }
        self.entries.len() == 0
    }
}

proof fn lemma_hex_len(n: nat, digits: nat)
    ensures
        hex(n, digits).len() == digits,
    decreases digits,
{
    if digits > 0 {
        lemma_hex_len(n / 16, (digits - 1) as nat);
    }
}

spec fn pow16(k: nat) -> nat
    decreases k,
{
    if k == 0 {
        1
    } else {
        16 * pow16((k - 1) as nat)
    }
}

proof fn lemma_hex_injective(a: nat, b: nat, digits: nat)
    requires
        hex(a, digits) == hex(b, digits),
        a < pow16(digits),
        b < pow16(digits),
    ensures
        a == b,
    decreases digits,
{
    if digits > 0 {
        let k = (digits - 1) as nat;
        lemma_hex_len(a / 16, k);
        lemma_hex_len(b / 16, k);
        assert(hex(a, digits).drop_last() =~= hex(a / 16, k));
        assert(hex(b, digits).drop_last() =~= hex(b / 16, k));
        assert(hex(a, digits).last() == hex_digit(a % 16));
        assert(hex(b, digits).last() == hex_digit(b % 16));
        lemma_hex_injective(a / 16, b / 16, k);
    }
}

/// Rollouts that differ in anything have different keys.
pub proof fn cache_key_is_injective(
    b1: u64,
    c1: u64,
    e1: u64,
    s1: u64,
    b2: u64,
    c2: u64,
    e2: u64,
    s2: u64,
)
    requires
        cache_key(b1, c1, e1, s1) == cache_key(b2, c2, e2, s2),
    ensures
        b1 == b2 && c1 == c2 && e1 == e2 && s1 == s2,
{
    reveal_strlit(":");
    lemma_hex_len(b1 as nat, 16);
    lemma_hex_len(c1 as nat, 16);
    lemma_hex_len(e1 as nat, 16);
    lemma_hex_len(s1 as nat, 16);
    lemma_hex_len(b2 as nat, 16);
    lemma_hex_len(c2 as nat, 16);
    lemma_hex_len(e2 as nat, 16);
    lemma_hex_len(s2 as nat, 16);
    let k1 = cache_key(b1, c1, e1, s1);
    let k2 = cache_key(b2, c2, e2, s2);
    assert(k1.subrange(0, 16) =~= hex(b1 as nat, 16));
    assert(k2.subrange(0, 16) =~= hex(b2 as nat, 16));
    assert(k1.subrange(17, 33) =~= hex(c1 as nat, 16));
    assert(k2.subrange(17, 33) =~= hex(c2 as nat, 16));
    assert(k1.subrange(34, 50) =~= hex(e1 as nat, 16));
    assert(k2.subrange(34, 50) =~= hex(e2 as nat, 16));
    assert(k1.subrange(51, 67) =~= hex(s1 as nat, 16));
    assert(k2.subrange(51, 67) =~= hex(s2 as nat, 16));
    assert(pow16(16) == 0x1_0000_0000_0000_0000) by {
        reveal_with_fuel(pow16, 17);
    }
    lemma_hex_injective(b1 as nat, b2 as nat, 16);
    lemma_hex_injective(c1 as nat, c2 as nat, 16);
    lemma_hex_injective(e1 as nat, e2 as nat, 16);
    lemma_hex_injective(s1 as nat, s2 as nat, 16);
}

/// Candidates with the same content hash identically, in whatever order it was set.
pub proof fn equal_content_hashes_equally(a: Candidate, b: Candidate)
    requires
        a.wf(),
        b.wf(),
        a@ == b@,
    ensures
        a.entries() == b.entries(),
        a.content_hash() == b.content_hash(),
{
    let x = names::names_of(a.slots@);
    let y = names::names_of(b.slots@);
    names::lemma_map_len(a.slots@);
    names::lemma_map_len(b.slots@);
    assert(names::map_of(a.slots@).dom() =~= a@.dom());
    assert(names::map_of(b.slots@).dom() =~= b@.dom());
    assert(x.len() == y.len());
    assert forall|i: int, j: int| 0 <= i < j < x.len() implies text::lex_less(
        #[trigger] x[i],
        #[trigger] x[j],
    ) by {
        assert(text::lex_less(a.slots@[i].0@, a.slots@[j].0@));
    }
    assert forall|i: int, j: int| 0 <= i < j < y.len() implies text::lex_less(
        #[trigger] y[i],
        #[trigger] y[j],
    ) by {
        assert(text::lex_less(b.slots@[i].0@, b.slots@[j].0@));
    }
    assert forall|i: int| 0 <= i < x.len() implies y.contains(#[trigger] x[i]) by {
        names::lemma_map_at(a.slots@, i);
        assert(b@.dom().contains(x[i]));
        assert(names::named(b.slots@, x[i]));
        let k = choose|k: int| names::is_at(b.slots@, x[i], k);
        assert(y[k] == x[i]);
    }
    assert forall|i: int| 0 <= i < y.len() implies x.contains(#[trigger] y[i]) by {
        names::lemma_map_at(b.slots@, i);
        assert(a@.dom().contains(y[i]));
        assert(names::named(a.slots@, y[i]));
        let k = choose|k: int| names::is_at(a.slots@, y[i], k);
        assert(x[k] == y[i]);
    }
    names::lemma_increasing_unique(x, y, x.len());
    assert forall|i: int| 0 <= i < x.len() implies #[trigger] a.entries()[i] == b.entries()[i] by {
        assert(x[i] == y[i]);
        names::lemma_map_at(a.slots@, i);
        names::lemma_map_at(b.slots@, i);
        assert(a@[x[i]] == a.slots@[i].1@);
        assert(b@[y[i]] == b.slots@[i].1@);
    }
    assert(a.entries() =~= b.entries());
}

/// A budget admits rollouts up to its caps and not beyond: a call cap is never exceeded by what is
/// admitted, and what just fits is admitted.
pub proof fn budgets_admit_up_to_their_caps(
    budget: &Budget,
    spend: &Spend,
    upcoming: usize,
    r: bool,
)
    requires
        call_ensures(Budget::allows, (budget, spend, upcoming), r),
        upcoming > 0,
        spend.metric_calls + upcoming <= usize::MAX,
        spend.lm_calls + upcoming <= usize::MAX,
    ensures
        r && budget.max_metric_calls is Some ==> spend.metric_calls + upcoming
            <= budget.max_metric_calls->0,
        r && budget.max_lm_calls is Some ==> spend.lm_calls + upcoming <= budget.max_lm_calls->0,
        r && budget.max_tokens is Some ==> spend.tokens.total_tokens < budget.max_tokens->0,
        (budget.max_metric_calls is Some ==> spend.metric_calls + upcoming
            <= budget.max_metric_calls->0) && (budget.max_lm_calls is Some ==> spend.lm_calls
            + upcoming <= budget.max_lm_calls->0) && (budget.max_tokens is Some
            ==> spend.tokens.total_tokens < budget.max_tokens->0) ==> r,
{
}

/// The instruction that a candidate was made with is the one that it gives for its predictor, and
/// it gives none for another.
pub proof fn instructions_of_candidates_are_read_back(
    name: &str,
    instruction: &str,
    other: &str,
    c: Candidate,
    mine: Option<&str>,
    others: Option<&str>,
    demos: Option<&Vec<JsonMap>>,
)
    requires
        call_ensures(Candidate::with_instruction, (name, instruction), c),
        call_ensures(Candidate::instruction_of, (&c, name), mine),
        call_ensures(Candidate::instruction_of, (&c, other), others),
        call_ensures(Candidate::demos_of, (&c, name), demos),
    ensures
        mine is Some,
        mine->0@ == instruction@,
        demos is None,
        other@ != name@ ==> others is None,
{
}

/// A run gets what the candidate changes and nothing else: its instructions and demos under the
/// names of their predictors. Taking an instruction back wins over setting one.
pub proof fn parameters_are_what_the_candidate_changes(c: &Candidate, r: Params, n: Seq<char>)
    requires
        c.wf(),
        call_ensures(Candidate::to_params, (c,), r),
    ensures
        r@.dom().contains(n) <==> c@.dom().contains(n) && (c@[n].clear_instruction
            || c@[n].instruction is Some || c@[n].demos is Some),
        r@.dom().contains(n) ==> r@[n].demos == c@[n].demos && r@[n].clear_instruction
            == c@[n].clear_instruction,
        r@.dom().contains(n) && !c@[n].clear_instruction ==> r@[n].instruction
            == c@[n].instruction,
        r@.dom().contains(n) && c@[n].clear_instruction ==> r@[n].instruction is None,
{
    if r@.dom().contains(n) {
        assert(r@[n] == c@[n].settled());
    }
}

/// An evaluation that was kept is found again under the same numbers, and under others there is what
/// was there before.
pub proof fn kept_evaluations_are_found_again(
    cache: &mut RolloutCache,
    kept: (u64, u64, u64, u64),
    eval: Eval,
    asked: (u64, u64, u64, u64),
    before: Option<&Eval>,
    found: Option<&Eval>,
)
    requires
        old(cache).wf(),
        call_ensures(
            RolloutCache::insert,
            (cache, kept.0, kept.1, kept.2, kept.3, eval),
            (),
        ),
        call_ensures(
            RolloutCache::get,
            (old(cache), asked.0, asked.1, asked.2, asked.3),
            before,
        ),
        call_ensures(
            RolloutCache::get,
            (final(cache), asked.0, asked.1, asked.2, asked.3),
            found,
        ),
    ensures
        asked == kept ==> (found matches Some(e) && *e == eval),
        asked != kept ==> (found is Some <==> before is Some) && (found matches Some(e) ==> *e
            == *before->0),
{
    let a = cache_key(kept.0, kept.1, kept.2, kept.3);
    let b = cache_key(asked.0, asked.1, asked.2, asked.3);
    if a == b {
        cache_key_is_injective(
            kept.0,
            kept.1,
            kept.2,
            kept.3,
            asked.0,
            asked.1,
            asked.2,
            asked.3,
        );
    }
}

} // verus!
