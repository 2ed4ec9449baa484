//! JSON as it is read from a text.

use vstd::prelude::*;

verus! {

/// JSON as it was read. A number carries what it is as an integer and, by its bit pattern, as a
/// number with a fraction, as far as it is either.
#[derive(Debug)]
pub enum JsonData {
    Null,
    Bool(bool),
    Number { integer: Option<i64>, fraction: Option<u64> },
    Text(String),
    Array(Vec<JsonData>),
    Object(Vec<(String, JsonData)>),
}

/// What JSON that was read holds.
pub enum DataView {
    Null,
    Bool(bool),
    Number { integer: Option<i64>, fraction: Option<u64> },
    Text(Seq<char>),
    Array(Seq<DataView>),
    Object(Seq<(Seq<char>, DataView)>),
}

impl View for JsonData {
    type V = DataView;

    open spec fn view(&self) -> DataView {
        self.value()
    }
}

impl JsonData {
    pub open spec fn value(&self) -> DataView
        decreases self,
    {
        match self {
            JsonData::Null => DataView::Null,
            JsonData::Bool(b) => DataView::Bool(*b),
            JsonData::Number { integer, fraction } => DataView::Number {
                integer: *integer,
                fraction: *fraction,
            },
            JsonData::Text(t) => DataView::Text(t@),
            JsonData::Array(items) => DataView::Array(
                Seq::new(
                    items@.len(),
                    |i: int|
                        if 0 <= i < items@.len() {
                            items@[i].value()
                        } else {
                            DataView::Null
                        },
                ),
            ),
            JsonData::Object(members) => DataView::Object(
                Seq::new(
                    members@.len(),
                    |i: int|
                        if 0 <= i < members@.len() {
                            (members@[i].0@, members@[i].1.value())
                        } else {
                            (Seq::empty(), DataView::Null)
                        },
                ),
            ),
        }
    }
}

/// What a list of values holds.
pub open spec fn items_view(items: Seq<JsonData>) -> Seq<DataView> {
    Seq::new(items.len(), |i: int| items[i]@)
}

/// What the members of an object hold.
pub open spec fn members_view(members: Seq<(String, JsonData)>) -> Seq<(Seq<char>, DataView)> {
    Seq::new(members.len(), |i: int| (members[i].0@, members[i].1@))
}

pub proof fn lemma_array_view(items: Vec<JsonData>)
    ensures
        JsonData::Array(items)@ == DataView::Array(items_view(items@)),
{
    assert(JsonData::Array(items)@->Array_0 =~= items_view(items@));
}

pub proof fn lemma_object_view(members: Vec<(String, JsonData)>)
    ensures
        JsonData::Object(members)@ == DataView::Object(members_view(members@)),
{
    let held = JsonData::Object(members)@->Object_0;
    assert forall|i: int| 0 <= i < members@.len() implies #[trigger] held[i] == members_view(
        members@,
    )[i] by {
        assert(held[i].0 == members@[i].0@);
        assert(held[i].1 == members@[i].1@);
    }
    assert(held =~= members_view(members@));
}

#[verifier::external_type_specification]
#[verifier::external_body]
pub struct ExValue(serde_json::Value);

/// What a value of `serde_json` holds. The members of an object are in the order of its map.
pub uninterp spec fn value_data(value: serde_json::Value) -> DataView;

/// What `serde_json` reads from a text, or what it says against it.
pub uninterp spec fn json_reading(raw: Seq<char>) -> Result<DataView, Seq<char>>;

/// A value of `serde_json`, by its variant. What it is made of is not opened yet.
enum JsonNode<'a> {
    Null,
    Bool(bool),
    Number { integer: Option<i64>, fraction: Option<u64> },
    Text(&'a str),
    Array(&'a Vec<serde_json::Value>),
    Object(Vec<(&'a String, &'a serde_json::Value)>),
}

spec fn node_data(node: JsonNode<'_>) -> DataView {
    match node {
        JsonNode::Null => DataView::Null,
        JsonNode::Bool(b) => DataView::Bool(b),
        JsonNode::Number { integer, fraction } => DataView::Number { integer, fraction },
        JsonNode::Text(t) => DataView::Text(t@),
        JsonNode::Array(items) => DataView::Array(
            Seq::new(items@.len(), |i: int| value_data(items@[i])),
        ),
        JsonNode::Object(members) => DataView::Object(
            Seq::new(members@.len(), |i: int| (members@[i].0@, value_data(*members@[i].1))),
        ),
    }
}

/// `serde_json::from_str::<serde_json::Value>`: the value that a text writes, or the text of the
/// error. Both depend on the text alone.
#[verifier::external_body]
fn parse(raw: &str) -> (r: Result<serde_json::Value, String>)
    ensures
        json_reading(raw@) == match r {
            Ok(value) => Ok::<DataView, Seq<char>>(value_data(value)),
            Err(e) => Err(e@),
        },
{
    serde_json::from_str::<serde_json::Value>(raw).map_err(|e| e.to_string())
}

/// The variant of a `serde_json::Value` with what is in it. A number is asked by `Number::as_i64`
/// and `Number::as_f64`, and an object hands its members out in the order of its map.
#[verifier::external_body]
fn node_of<'a>(value: &'a serde_json::Value) -> (r: JsonNode<'a>)
    ensures
        node_data(r) == value_data(*value),
{
    match value {
        serde_json::Value::Null => JsonNode::Null,
        serde_json::Value::Bool(b) => JsonNode::Bool(*b),
        serde_json::Value::Number(n) => JsonNode::Number {
            integer: n.as_i64(),
            fraction: n.as_f64().map(|x| x.to_bits()),
        },
        serde_json::Value::String(t) => JsonNode::Text(t),
        serde_json::Value::Array(items) => JsonNode::Array(items),
        serde_json::Value::Object(members) => JsonNode::Object(members.iter().collect()),
    }
}

#[verifier::loop_isolation(false)]
fn data_of(value: &serde_json::Value) -> (r: JsonData)
    ensures
        r@ == value_data(*value),
    decreases value_data(*value),
{
    match node_of(value) {
        JsonNode::Null => JsonData::Null,
        JsonNode::Bool(b) => JsonData::Bool(b),
        JsonNode::Number { integer, fraction } => JsonData::Number { integer, fraction },
        JsonNode::Text(t) => JsonData::Text(t.to_owned()),
        JsonNode::Array(items) => {
            let ghost held = value_data(*value)->Array_0;
            let mut out: Vec<JsonData> = Vec::new();
            let mut i: usize = 0;
            while i < items.len()
                invariant
                    i <= items@.len(),
                    out@.len() == i,
                    forall|k: int| 0 <= k < i ==> (#[trigger] out@[k])@ == held[k],
                decreases items@.len() - i,
            {
                proof {
                    assert(held[i as int] == value_data(items@[i as int]));
                    assert(decreases_to!(value_data(*value) => held[i as int]));
                }
                out.push(data_of(&items[i]));
                i += 1;
            }
            proof {
                lemma_array_view(out);
                assert(items_view(out@) =~= held);
            }
            JsonData::Array(out)
        },
        JsonNode::Object(members) => {
            let ghost held = value_data(*value)->Object_0;
            let mut out: Vec<(String, JsonData)> = Vec::new();
            let mut i: usize = 0;
            while i < members.len()
                invariant
                    i <= members@.len(),
                    out@.len() == i,
                    forall|k: int|
                        0 <= k < i ==> (#[trigger] out@[k]).0@ == held[k].0 && out@[k].1@
                            == held[k].1,
                decreases members@.len() - i,
            {
                let name: String = members[i].0.clone();
                proof {
                    assert(held[i as int] == (
                        members@[i as int].0@,
                        value_data(*members@[i as int].1),
                    ));
                    assert(decreases_to!(value_data(*value) => held[i as int].1));
                }
                out.push((name, data_of(members[i].1)));
                i += 1;
            }
            proof {
                lemma_object_view(out);
                assert(members_view(out@) =~= held);
            }
            JsonData::Object(out)
        },
    }
}

/// Reads JSON from a text. What is said against a text that is no JSON is handed on.
pub fn read_json(raw: &str) -> (r: Result<JsonData, String>)
    ensures
        json_reading(raw@) == match r {
            Ok(d) => Ok::<DataView, Seq<char>>(d@),
            Err(e) => Err(e@),
        },
{
    match parse(raw) {
        Ok(value) => Ok(data_of(&value)),
        Err(e) => Err(e),
    }
}

} // verus!
