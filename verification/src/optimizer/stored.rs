//! Candidates that are read back from JSON.

use vstd::prelude::*;

use crate::json;
use crate::json::{Json, JsonMap, JsonView};
use crate::names;
use crate::optimizer::engine;
use crate::optimizer::engine::{Candidate, CandidateSlot, SlotView};

verus! {

/// The member of a name, where there is one.
pub open spec fn member(m: Seq<(Seq<char>, JsonView)>, name: Seq<char>) -> Option<JsonView> {
    let at = json::member_index(m, name, 0);
    if at < m.len() {
        Some(m[at].1)
    } else {
        None
    }
}

/// A text that may be left out or null; `None` of another value.
pub open spec fn read_text(v: Option<JsonView>) -> Option<Option<Seq<char>>> {
    match v {
        None => Some(None),
        Some(JsonView::Null) => Some(None),
        Some(JsonView::Str(t)) => Some(Some(t)),
        Some(_) => None,
    }
}

/// A flag that may be left out; `None` of another value.
pub open spec fn read_flag(v: Option<JsonView>) -> Option<bool> {
    match v {
        None => Some(false),
        Some(JsonView::Bool(b)) => Some(b),
        Some(_) => None,
    }
}

pub open spec fn all_objects(items: Seq<JsonView>) -> bool {
    forall|i: int| 0 <= i < items.len() ==> (#[trigger] items[i]) is Object
}

pub open spec fn row_members(items: Seq<JsonView>) -> Seq<Seq<(Seq<char>, JsonView)>> {
    Seq::new(items.len(), |i: int| items[i]->Object_0)
}

/// Rows that may be left out or null; `None` of another value.
pub open spec fn read_rows(v: Option<JsonView>) -> Option<
    Option<Seq<Seq<(Seq<char>, JsonView)>>>,
> {
    match v {
        None => Some(None),
        Some(JsonView::Null) => Some(None),
        Some(JsonView::Array(items)) => if all_objects(items) {
            Some(Some(row_members(items)))
        } else {
            None
        },
        Some(_) => None,
    }
}

/// A slot. It is kept as it is stored, also where it both sets and clears an instruction.
pub open spec fn read_slot(v: JsonView) -> Option<SlotView> {
    match v {
        JsonView::Object(m) => match (
            read_text(member(m, "instruction"@)),
            read_flag(member(m, "clear_instruction"@)),
            read_rows(member(m, "demos"@)),
        ) {
            (Some(instruction), Some(clear_instruction), Some(demos)) => Some(
                SlotView { instruction, clear_instruction, demos },
            ),
            _ => None,
        },
        _ => None,
    }
}

/// The first `n` slots by name. Of several with one name the last counts.
pub open spec fn read_slots(m: Seq<(Seq<char>, JsonView)>, n: nat) -> Option<
    Map<Seq<char>, SlotView>,
>
    decreases n,
{
    if n == 0 || n > m.len() {
        Some(Map::empty())
    } else {
        match (read_slots(m, (n - 1) as nat), read_slot(m[n - 1].1)) {
            (Some(before), Some(slot)) => Some(before.insert(m[n - 1].0, slot)),
            _ => None,
        }
    }
}

/// What a candidate that is stored changes; `None` where it is not one.
pub open spec fn read_candidate(v: JsonView) -> Option<Map<Seq<char>, SlotView>> {
    match v {
        JsonView::Object(m) => match member(m, "slots"@) {
            Some(JsonView::Object(slots)) => read_slots(slots, slots.len()),
            _ => None,
        },
        _ => None,
    }
}

fn find<'a>(map: &'a JsonMap, name: &str) -> (r: Option<&'a Json>)
    ensures
        match r {
            Some(v) => member(json::members_view(map@), name@) == Some(v@),
            None => member(json::members_view(map@), name@) is None,
        },
{
    let at = json::find_member(map, name);
    if at < map.len() {
        Some(&map[at].1)
    } else {
        None
    }
}

pub open spec fn shown(v: Option<&Json>) -> Option<JsonView> {
    match v {
        Some(j) => Some(j@),
        None => None,
    }
}

fn text_from(v: Option<&Json>) -> (r: Option<Option<String>>)
    ensures
        match r {
            Some(t) => read_text(shown(v)) == Some(engine::string_view(t)),
            None => read_text(shown(v)) is None,
        },
{
    match v {
        None => Some(None),
        Some(Json::Null) => Some(None),
        Some(Json::Str(t)) => Some(Some(t.clone())),
        Some(_) => None,
    }
}

fn flag_from(v: Option<&Json>) -> (r: Option<bool>)
    ensures
        r == read_flag(shown(v)),
{
    match v {
        None => Some(false),
        Some(Json::Bool(b)) => Some(*b),
        Some(_) => None,
    }
}

/// The rows of an array of objects.
fn rows_of(items: &Vec<Json>) -> (r: Option<Vec<JsonMap>>)
    ensures
        match r {
            Some(rows) => all_objects(json::items_view(items@)) && json::rows_view(rows@)
                == row_members(json::items_view(items@)),
            None => !all_objects(json::items_view(items@)),
        },
{
    let ghost shown_items = json::items_view(items@);
    let mut out: Vec<JsonMap> = Vec::new();
    let mut i: usize = 0;
    while i < items.len()
        invariant
            i <= items@.len(),
            shown_items == json::items_view(items@),
            out@.len() == i,
            forall|k: int| 0 <= k < i ==> (#[trigger] shown_items[k]) is Object,
            forall|k: int|
                0 <= k < i ==> json::members_view((#[trigger] out@[k])@)
                    == shown_items[k]->Object_0,
        decreases items@.len() - i,
    {
        match &items[i] {
            Json::Object(members) => {
                proof {
                    json::lemma_object_view(*members);
                    assert(shown_items[i as int] == items@[i as int]@);
                }
                out.push(json::clone_map(members));
            },
            _ => {
                proof {
                    assert(!(shown_items[i as int] is Object));
                }
                return None;
            },
        }
        i += 1;
    }
    proof {
        assert(json::rows_view(out@) =~= row_members(shown_items));
    }
    Some(out)
}

pub open spec fn rows_shown(rows: Option<Vec<JsonMap>>) -> Option<
    Seq<Seq<(Seq<char>, JsonView)>>,
> {
    match rows {
        Some(rows) => Some(json::rows_view(rows@)),
        None => None,
    }
}

fn rows_from(v: Option<&Json>) -> (r: Option<Option<Vec<JsonMap>>>)
    ensures
        match r {
            Some(rows) => read_rows(shown(v)) == Some(rows_shown(rows)),
            None => read_rows(shown(v)) is None,
        },
{
    match v {
        None => Some(None),
        Some(Json::Null) => Some(None),
        Some(Json::Array(items)) => {
            proof {
                json::lemma_array_view(*items);
            }
            match rows_of(items) {
                Some(rows) => Some(Some(rows)),
                None => None,
            }
        },
        Some(_) => None,
    }
}

fn slot_from(v: &Json) -> (r: Option<CandidateSlot>)
    ensures
        match r {
            Some(slot) => read_slot(v@) == Some(slot@),
            None => read_slot(v@) is None,
        },
{
    match v {
        Json::Object(m) => {
            proof {
                json::lemma_object_view(*m);
            }
            let instruction = text_from(find(m, "instruction"));
            let clear = flag_from(find(m, "clear_instruction"));
            let demos = rows_from(find(m, "demos"));
            match (instruction, clear, demos) {
                (Some(instruction), Some(clear_instruction), Some(demos)) => Some(
                    CandidateSlot { instruction, clear_instruction, demos },
                ),
                _ => None,
            }
        },
        _ => None,
    }
}

impl Candidate {
    /// The candidate that an object stands for, as `to_json` writes it; `None` of another value.
    pub fn from_json(value: &Json) -> (r: Option<Candidate>)
        ensures
            match r {
                Some(c) => c.wf() && read_candidate(value@) == Some(c@),
                None => read_candidate(value@) is None,
            },
    {
        let members = match value {
            Json::Object(m) => {
                proof {
                    json::lemma_object_view(*m);
                }
                match find(m, "slots") {
                    Some(Json::Object(slots)) => slots,
                    _ => {
                        return None;
                    },
                }
            },
            _ => {
                return None;
            },
        };
        let ghost stored = json::members_view(members@);
        proof {
            json::lemma_object_view(*members);
        }
        let mut slots: Vec<(String, CandidateSlot)> = Vec::new();
        let mut i: usize = 0;
        proof {
            assert(engine::slot_map(slots@) =~= Map::<Seq<char>, SlotView>::empty());
        }
        while i < members.len()
            invariant
                i <= members@.len(),
                stored == json::members_view(members@),
                read_candidate(value@) == read_slots(stored, stored.len()),
                names::sorted_names(slots@),
                read_slots(stored, i as nat) == Some(engine::slot_map(slots@)),
            decreases members@.len() - i,
        {
            match slot_from(&members[i].1) {
                Some(slot) => {
                    let ghost before = engine::slot_map(slots@);
                    let ghost name = members@[i as int].0@;
                    let ghost held = slot@;
                    names::put(&mut slots, members[i].0.clone(), slot);
                    proof {
                        assert(stored[i as int] == (name, members@[i as int].1@));
                        assert(engine::slot_map(slots@) =~= before.insert(name, held));
                    }
                },
                None => {
                    proof {
                        assert(stored[i as int].1 == members@[i as int].1@);
                        lemma_unread_slots(stored, (i + 1) as nat, stored.len());
                    }
                    return None;
                },
            }
            i += 1;
        }
        Some(Candidate { slots })
    }
}

proof fn lemma_unread_slots(m: Seq<(Seq<char>, JsonView)>, a: nat, b: nat)
    requires
        a <= b <= m.len(),
        read_slots(m, a) is None,
    ensures
        read_slots(m, b) is None,
    decreases b,
{
    if a < b {
        lemma_unread_slots(m, a, (b - 1) as nat);
    }
}

proof fn lemma_written_slot(slot: SlotView)
    ensures
        read_slot(JsonView::Object(engine::slot_members(slot))) == Some(slot),
{
    reveal_strlit("instruction");
    reveal_strlit("clear_instruction");
    reveal_strlit("demos");
    reveal_with_fuel(json::member_index, 4);
    let m = engine::slot_members(slot);
    assert("instruction"@.len() != "clear_instruction"@.len());
    assert("instruction"@.len() != "demos"@.len());
    assert("clear_instruction"@.len() != "demos"@.len());
    if let Some(rows) = slot.demos {
        let items = Seq::new(rows.len(), |i: int| JsonView::Object(rows[i]));
        assert(engine::rows_json(rows) == JsonView::Array(items));
        assert(all_objects(items));
        assert(row_members(items) =~= rows);
    }
    assert(read_text(member(m, "instruction"@)) == Some(slot.instruction));
    assert(read_flag(member(m, "clear_instruction"@)) == Some(slot.clear_instruction));
    assert(read_rows(member(m, "demos"@)) == Some(slot.demos));
}

proof fn lemma_written_slots(
    slots: Seq<(String, CandidateSlot)>,
    m: Seq<(Seq<char>, JsonView)>,
    n: nat,
)
    requires
        n <= slots.len(),
        m.len() == slots.len(),
        names::sorted_names(slots),
        forall|i: int|
            0 <= i < m.len() ==> #[trigger] m[i] == (
                slots[i].0@,
                JsonView::Object(engine::slot_members(slots[i].1@)),
            ),
    ensures
        read_slots(m, n) matches Some(read) && {
            &&& forall|i: int|
                0 <= i < n ==> read.dom().contains((#[trigger] slots[i]).0@)
                    && read[slots[i].0@] == slots[i].1@
            &&& forall|name: Seq<char>| #[trigger]
                read.dom().contains(name) ==> exists|i: int|
                    0 <= i < n && (#[trigger] slots[i]).0@ == name
        },
    decreases n,
{
    if n > 0 {
        let last = n - 1;
        lemma_written_slots(slots, m, last as nat);
        lemma_written_slot(slots[last].1@);
        assert(m[last].1 == JsonView::Object(engine::slot_members(slots[last].1@)));
        let before = read_slots(m, last as nat)->0;
        let read = before.insert(slots[last].0@, slots[last].1@);
        assert(read_slots(m, n) == Some(read));
        assert forall|i: int| 0 <= i < n implies read.dom().contains((#[trigger] slots[i]).0@)
            && read[slots[i].0@] == slots[i].1@ by {
            if i < last && slots[i].0@ == slots[last].0@ {
                names::lemma_one_position(slots, i, last);
            }
        }
        assert forall|name: Seq<char>| #[trigger] read.dom().contains(name) implies exists|i: int|
            0 <= i < n && (#[trigger] slots[i]).0@ == name by {
            if name == slots[last].0@ {
                assert(slots[last].0@ == name);
            } else {
                assert(before.dom().contains(name));
            }
        }
    }
}

/// A candidate that is written is read back as it was.
pub proof fn written_candidates_are_read_back(c: Candidate)
    requires
        c.wf(),
    ensures
        read_candidate(engine::candidate_json(c.entries())) == Some(c@),
{
    let entries = c.entries();
    let m = Seq::new(
        entries.len(),
        |i: int| (entries[i].0, JsonView::Object(engine::slot_members(entries[i].1))),
    );
    lemma_written_slots(c.slots@, m, m.len());
    let read = read_slots(m, m.len())->0;
    assert forall|name: Seq<char>| #[trigger] read.dom().contains(name) implies c@.dom().contains(
        name,
    ) && c@[name] == read[name] by {
        let i = choose|i: int| 0 <= i < m.len() && (#[trigger] c.slots@[i]).0@ == name;
        names::lemma_map_at(c.slots@, i);
    }
    assert forall|name: Seq<char>| #[trigger] c@.dom().contains(name) implies read.dom().contains(
        name,
    ) by {
        assert(names::named(c.slots@, name));
        let i = choose|i: int| names::is_at(c.slots@, name, i);
        assert(c.slots@[i].0@ == name);
    }
    assert(read =~= c@);
    let outer = seq![("slots"@, JsonView::Object(m))];
    assert(engine::candidate_json(entries) == JsonView::Object(outer));
    assert(json::member_index(outer, "slots"@, 0) == 0);
}

/// A candidate that is written and then read is the candidate that was written.
pub proof fn stored_candidates_load_back(c: &Candidate, written: Json, read: Option<Candidate>)
    requires
        c.wf(),
        call_ensures(Candidate::to_json, (c,), written),
        call_ensures(Candidate::from_json, (&written,), read),
    ensures
        read matches Some(back) && back@ == c@,
{
    written_candidates_are_read_back(*c);
}

} // verus!
