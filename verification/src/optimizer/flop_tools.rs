//! Tools by which a model changes signatures.

use vstd::prelude::*;

use crate::json;
use crate::json::{Json, JsonMap, JsonView};
use crate::predictors::tool_schema::ToolDefinition;
use crate::text;

verus! {

/// Why a tool failed.
#[derive(Debug)]
pub struct SignatureToolError(pub String);

impl SignatureToolError {
    pub fn message(&self) -> (r: String)
        ensures
            r@ == "Signature tool error: "@ + self.0@,
    {
        let mut out = "Signature tool error: ".to_owned();
        out.append(self.0.as_str());
        out
    }
}

/// A part that a signature is split into.
#[derive(Debug)]
pub struct SplitPoint {
    pub name: String,
    pub inputs: Vec<String>,
    pub outputs: Vec<String>,
}

/// What is to be split. The signature is written as JSON.
#[derive(Debug)]
pub struct SplitArgs {
    pub original_signature: String,
    pub split_points: Vec<SplitPoint>,
}

/// What is to be fused. The signatures are written as JSON.
#[derive(Debug)]
pub struct FuseArgs {
    pub signatures: Vec<String>,
    pub merged_name: String,
}

/// A field that is to be added.
#[derive(Debug)]
pub struct FieldDef {
    pub name: String,
    pub desc: String,
    pub kind_name: String,
}

/// What is to be changed. The signature is written as JSON.
#[derive(Debug)]
pub struct ModifyArgs {
    pub signature: String,
    pub new_instruction: Option<String>,
    pub add_inputs: Option<Vec<FieldDef>>,
    pub add_outputs: Option<Vec<FieldDef>>,
    pub remove_fields: Option<Vec<String>>,
}

/// A signature as it is written in JSON.
#[derive(Debug)]
pub struct JsonSignature {
    pub instruction: String,
    pub inputs: Json,
    pub outputs: Json,
    pub demos: Vec<JsonMap>,
}

impl JsonSignature {
    pub fn update_instruction(&mut self, instruction: String)
        ensures
            *final(self) == (JsonSignature { instruction, ..*old(self) }),
    {
        self.instruction = instruction;
    }

    pub fn set_demos(&mut self, demos: Vec<JsonMap>)
        ensures
            *final(self) == (JsonSignature { demos, ..*old(self) }),
    {
        self.demos = demos;
    }

    /// Sets an input. Inputs that are no object stay as they are.
    pub fn append(&mut self, name: String, value: Json)
        ensures
            final(self).instruction == old(self).instruction,
            final(self).outputs == old(self).outputs,
            final(self).demos == old(self).demos,
            final(self).inputs@ == (match old(self).inputs@ {
                JsonView::Object(members) => JsonView::Object(
                    json::with_member(members, name@, value@),
                ),
                other => other,
            }),
    {
        let mut inputs = Json::Null;
        std::mem::swap(&mut inputs, &mut self.inputs);
        match inputs {
            Json::Object(members) => {
                proof {
                    json::lemma_object_view(members);
                }
                let mut grown = members;
                json::put_member(&mut grown, name, value);
                self.inputs = json::object(grown);
            },
            other => {
                self.inputs = other;
            },
        }
    }
}

/// The schema of a value of a basic kind.
pub open spec fn of_kind(kind: Seq<char>) -> JsonView {
    JsonView::Object(seq![("type"@, JsonView::Str(kind))])
}

/// The schema of a value of a basic kind, with a description.
pub open spec fn described(kind: Seq<char>, description: Seq<char>) -> JsonView {
    JsonView::Object(
        seq![("type"@, JsonView::Str(kind)), ("description"@, JsonView::Str(description))],
    )
}

/// The schema of a list.
pub open spec fn list_of(items: JsonView) -> JsonView {
    JsonView::Object(seq![("type"@, JsonView::Str("array"@)), ("items"@, items)])
}

/// The schema of an object, none of whose properties has to be there.
pub open spec fn open_object(properties: Seq<(Seq<char>, JsonView)>) -> JsonView {
    JsonView::Object(
        seq![
            ("type"@, JsonView::Str("object"@)),
            ("properties"@, JsonView::Object(properties)),
        ],
    )
}

/// The schema of the parameters of a tool.
pub open spec fn parameters_of(
    properties: Seq<(Seq<char>, JsonView)>,
    required: Seq<JsonView>,
) -> JsonView {
    JsonView::Object(
        seq![
            ("type"@, JsonView::Str("object"@)),
            ("properties"@, JsonView::Object(properties)),
            ("required"@, JsonView::Array(required)),
        ],
    )
}

fn text_json(t: &str) -> (r: Json)
    ensures
        r@ == JsonView::Str(t@),
{
    Json::Str(t.to_owned())
}

fn pair(name: &str, value: Json) -> (r: (String, Json))
    ensures
        r.0@ == name@,
        r.1 == value,
{
    (name.to_owned(), value)
}

/// An object of two members.
fn two(a: (String, Json), b: (String, Json)) -> (r: Json)
    ensures
        r@ == JsonView::Object(seq![(a.0@, a.1@), (b.0@, b.1@)]),
{
    let mut members: JsonMap = Vec::new();
    members.push(a);
    members.push(b);
    proof {
        assert(json::members_view(members@) =~= seq![(a.0@, a.1@), (b.0@, b.1@)]);
    }
    json::object(members)
}

/// An object of three members.
fn three(a: (String, Json), b: (String, Json), c: (String, Json)) -> (r: Json)
    ensures
        r@ == JsonView::Object(seq![(a.0@, a.1@), (b.0@, b.1@), (c.0@, c.1@)]),
{
    let mut members: JsonMap = Vec::new();
    members.push(a);
    members.push(b);
    members.push(c);
    proof {
        assert(json::members_view(members@) =~= seq![
            (a.0@, a.1@),
            (b.0@, b.1@),
            (c.0@, c.1@),
        ]);
    }
    json::object(members)
}

fn kind_json(kind: &str) -> (r: Json)
    ensures
        r@ == of_kind(kind@),
{
    let mut members: JsonMap = Vec::new();
    members.push(pair("type", text_json(kind)));
    proof {
        assert(json::members_view(members@) =~= seq![("type"@, JsonView::Str(kind@))]);
    }
    json::object(members)
}

pub fn described_json(kind: &str, description: &str) -> (r: Json)
    ensures
        r@ == described(kind@, description@),
{
    two(pair("type", text_json(kind)), pair("description", text_json(description)))
}

fn list_json(items: Json) -> (r: Json)
    ensures
        r@ == list_of(items@),
{
    two(pair("type", text_json("array")), pair("items", items))
}

pub fn parameters_json(properties: JsonMap, required: Vec<Json>) -> (r: Json)
    ensures
        r@ == parameters_of(json::members_view(properties@), json::items_view(required@)),
{
    let object = json::object(properties);
    let list = json::array(required);
    three(
        pair("type", text_json("object")),
        pair("properties", object),
        pair("required", list),
    )
}

/// The schema of one part of a split.
pub open spec fn split_point_schema() -> JsonView {
    open_object(
        seq![
            ("name"@, of_kind("string"@)),
            ("inputs"@, list_of(of_kind("string"@))),
            ("outputs"@, list_of(of_kind("string"@))),
        ],
    )
}

/// The schema of a list of parts of a split.
pub fn split_points_json() -> (r: Json)
    ensures
        r@ == list_of(split_point_schema()),
{
    let properties = three(
        pair("name", kind_json("string")),
        pair("inputs", list_json(kind_json("string"))),
        pair("outputs", list_json(kind_json("string"))),
    );
    list_json(two(pair("type", text_json("object")), pair("properties", properties)))
}

/// The schema of a field that is to be added.
pub open spec fn added_field_schema() -> JsonView {
    open_object(
        seq![
            ("name"@, of_kind("string"@)),
            ("desc"@, of_kind("string"@)),
            ("type_name"@, of_kind("string"@)),
        ],
    )
}

/// The schema of a list of fields that are to be added.
pub fn added_fields_json() -> (r: Json)
    ensures
        r@ == list_of(added_field_schema()),
{
    let properties = three(
        pair("name", kind_json("string")),
        pair("desc", kind_json("string")),
        pair("type_name", kind_json("string")),
    );
    list_json(two(pair("type", text_json("object")), pair("properties", properties)))
}

/// A schema of a list of texts.
pub fn text_list_json() -> (r: Json)
    ensures
        r@ == list_of(of_kind("string"@)),
{
    list_json(kind_json("string"))
}

pub open spec fn texts_json(texts: Seq<Seq<char>>) -> JsonView {
    JsonView::Array(Seq::new(texts.len(), |i: int| JsonView::Str(texts[i])))
}

fn texts_array(texts: &Vec<String>) -> (r: Json)
    ensures
        r@ == texts_json(text::views(texts@)),
{
    let mut items: Vec<Json> = Vec::new();
    let mut i: usize = 0;
    while i < texts.len()
        invariant
            i <= texts@.len(),
            items@.len() == i,
            forall|k: int| 0 <= k < i ==> (#[trigger] items@[k])@ == JsonView::Str(texts@[k]@),
        decreases texts@.len() - i,
    {
        items.push(Json::Str(texts[i].clone()));
        i += 1;
    }
    proof {
        let v = text::views(texts@);
        assert(json::items_view(items@) =~= Seq::new(v.len(), |k: int| JsonView::Str(v[k])));
    }
    json::array(items)
}

/// A part of a split as it is handed on.
pub open spec fn point_json(p: SplitPoint) -> JsonView {
    JsonView::Object(
        seq![
            ("name"@, JsonView::Str(p.name@)),
            ("inputs"@, texts_json(text::views(p.inputs@))),
            ("outputs"@, texts_json(text::views(p.outputs@))),
        ],
    )
}

/// The parts of a split as they are handed on.
pub fn split_metadata(points: &Vec<SplitPoint>) -> (r: Vec<Json>)
    ensures
        r@.len() == points@.len(),
        forall|i: int| 0 <= i < r@.len() ==> (#[trigger] r@[i])@ == point_json(points@[i]),
{
    let mut out: Vec<Json> = Vec::new();
    let mut i: usize = 0;
    while i < points.len()
        invariant
            i <= points@.len(),
            out@.len() == i,
            forall|k: int| 0 <= k < i ==> (#[trigger] out@[k])@ == point_json(points@[k]),
        decreases points@.len() - i,
    {
        let p = &points[i];
        out.push(
            three(
                pair("name", text_json(p.name.as_str())),
                pair("inputs", texts_array(&p.inputs)),
                pair("outputs", texts_array(&p.outputs)),
            ),
        );
        i += 1;
    }
    out
}

/// A tool that splits a signature.
#[derive(Clone, Copy, Debug, PartialEq, Eq, Structural)]
pub struct SplitSignatureTool;

impl SplitSignatureTool {
    pub fn definition(&self) -> (r: ToolDefinition)
        ensures
            r.name@ == "split_signature"@,
            r.description@
                == "Splits a signature into multiple sequential signatures based on specified split points."@,
            r.parameters@ == parameters_of(
                seq![
                    (
                        "original_signature"@,
                        described("string"@, "JSON string of original signature"@),
                    ),
                    ("split_points"@, list_of(split_point_schema())),
                ],
                seq![JsonView::Str("original_signature"@), JsonView::Str("split_points"@)],
            ),
    {
        let mut properties: JsonMap = Vec::new();
        properties.push(
            pair(
                "original_signature",
                described_json("string", "JSON string of original signature"),
            ),
        );
        properties.push(pair("split_points", split_points_json()));
        let mut required: Vec<Json> = Vec::new();
        required.push(text_json("original_signature"));
        required.push(text_json("split_points"));
        proof {
            assert(json::members_view(properties@) =~= seq![
                (
                    "original_signature"@,
                    described("string"@, "JSON string of original signature"@),
                ),
                ("split_points"@, list_of(split_point_schema())),
            ]);
            assert(json::items_view(required@) =~= seq![
                JsonView::Str("original_signature"@),
                JsonView::Str("split_points"@),
            ]);
        }
        ToolDefinition {
            name: "split_signature".to_owned(),
            description:
                "Splits a signature into multiple sequential signatures based on specified split points.".to_owned(),
            parameters: parameters_json(properties, required),
        }
    }
}

/// A tool that fuses signatures.
#[derive(Clone, Copy, Debug, PartialEq, Eq, Structural)]
pub struct FuseSignatureTool;

impl FuseSignatureTool {
    pub fn definition(&self) -> (r: ToolDefinition)
        ensures
            r.name@ == "fuse_signatures"@,
            r.description@ == "Fuses multiple signatures into a single merged signature."@,
            r.parameters@ == parameters_of(
                seq![
                    ("signatures"@, list_of(of_kind("string"@))),
                    ("merged_name"@, of_kind("string"@)),
                ],
                seq![JsonView::Str("signatures"@), JsonView::Str("merged_name"@)],
            ),
    {
        let mut properties: JsonMap = Vec::new();
        properties.push(pair("signatures", text_list_json()));
        properties.push(pair("merged_name", kind_json("string")));
        let mut required: Vec<Json> = Vec::new();
        required.push(text_json("signatures"));
        required.push(text_json("merged_name"));
        proof {
            assert(json::members_view(properties@) =~= seq![
                ("signatures"@, list_of(of_kind("string"@))),
                ("merged_name"@, of_kind("string"@)),
            ]);
            assert(json::items_view(required@) =~= seq![
                JsonView::Str("signatures"@),
                JsonView::Str("merged_name"@),
            ]);
        }
        ToolDefinition {
            name: "fuse_signatures".to_owned(),
            description: "Fuses multiple signatures into a single merged signature.".to_owned(),
            parameters: parameters_json(properties, required),
        }
    }

    /// There must be something to fuse.
    pub fn check(&self, args: &FuseArgs) -> (r: Result<(), SignatureToolError>)
        ensures
            match r {
                Ok(_) => args.signatures@.len() > 0,
                Err(e) => args.signatures@.len() == 0 && e.0@ == "No signatures provided"@,
            },
    {
        if args.signatures.len() == 0 {
            Err(SignatureToolError("No signatures provided".to_owned()))
        } else {
            Ok(())
        }
    }

    /// The instruction of what was fused: the new name before the merged one.
    pub fn merged_instruction(&self, args: &FuseArgs, merged: &JsonSignature) -> (r: String)
        ensures
            r@ == args.merged_name@ + ": "@ + merged.instruction@,
    {
        let mut out = args.merged_name.clone();
        out.append(": ");
        out.append(merged.instruction.as_str());
        out
    }
}

/// A change of a signature as it is handed on.
#[derive(Debug)]
pub struct Modification {
    pub instruction: Option<String>,
    pub add_inputs: Option<JsonMap>,
    pub add_outputs: Option<JsonMap>,
    pub remove_fields: Option<Vec<String>>,
}

/// A field as it is added on one side. `type_first` says which of type and description comes
/// first.
pub open spec fn added_field(f: FieldDef, side: Seq<char>, type_first: bool) -> (
    Seq<char>,
    JsonView,
) {
    let kind = ("type"@, JsonView::Str(f.kind_name@));
    let desc = ("desc"@, JsonView::Str(f.desc@));
    let mark = ("__dsrs_field_type"@, JsonView::Str(side));
    (
        f.name@,
        JsonView::Object(
            if type_first {
                seq![kind, desc, mark]
            } else {
                seq![desc, kind, mark]
            },
        ),
    )
}

/// Fields as they are added on one side.
pub open spec fn added(fields: Seq<FieldDef>, side: Seq<char>, type_first: bool) -> Seq<
    (Seq<char>, JsonView),
> {
    Seq::new(fields.len(), |i: int| added_field(fields[i], side, type_first))
}

/// Fields as they are added on one side.
pub fn added_fields(fields: &Vec<FieldDef>, side: &str, type_first: bool) -> (r: JsonMap)
    ensures
        json::members_view(r@) == added(fields@, side@, type_first),
{
    let mut out: JsonMap = Vec::new();
    let ghost all = added(fields@, side@, type_first);
    let mut i: usize = 0;
    proof {
        assert(json::members_view(out@) =~= all.take(0));
    }
    while i < fields.len()
        invariant
            i <= fields@.len(),
            all == added(fields@, side@, type_first),
            json::members_view(out@) == all.take(i as int),
        decreases fields@.len() - i,
    {
        let f = &fields[i];
        let kind = pair("type", text_json(f.kind_name.as_str()));
        let desc = pair("desc", text_json(f.desc.as_str()));
        let mark = pair("__dsrs_field_type", text_json(side));
        let value = if type_first {
            three(kind, desc, mark)
        } else {
            three(desc, kind, mark)
        };
        let ghost prior = out@;
        let ghost shown = value@;
        out.push((f.name.clone(), value));
        proof {
            assert(json::members_view(out@) =~= json::members_view(prior).push((f.name@, shown)));
            assert(all[i as int] == (f.name@, shown));
            assert(all.take(i + 1) =~= all.take(i as int).push(all[i as int]));
        }
        i += 1;
    }
    proof {
        assert(all.take(i as int) =~= all);
    }
    out
}

/// The fields are those that are to be added, or there are none.
pub open spec fn adds(
    out: Option<JsonMap>,
    fields: Option<Vec<FieldDef>>,
    side: Seq<char>,
) -> bool {
    match fields {
        Some(f) => if f@.len() == 0 {
            out is None
        } else {
            out matches Some(m) && json::members_view(m@) == added(f@, side, true)
        },
        None => out is None,
    }
}

fn some_added(fields: &Option<Vec<FieldDef>>, side: &str) -> (r: Option<JsonMap>)
    ensures
        adds(r, *fields, side@),
{
    match fields {
        Some(f) => if f.len() == 0 {
            None
        } else {
            Some(added_fields(f, side, true))
        },
        None => None,
    }
}

/// A tool that changes a signature.
#[derive(Clone, Copy, Debug, PartialEq, Eq, Structural)]
pub struct ModifySignatureTool;

impl ModifySignatureTool {
    pub fn definition(&self) -> (r: ToolDefinition)
        ensures
            r.name@ == "modify_signature"@,
            r.description@
                == "Modifies a signature by changing instruction or adding/removing fields."@,
            r.parameters@ == parameters_of(
                seq![
                    ("signature"@, of_kind("string"@)),
                    ("new_instruction"@, of_kind("string"@)),
                    ("add_inputs"@, list_of(added_field_schema())),
                    ("add_outputs"@, list_of(added_field_schema())),
                    ("remove_fields"@, list_of(of_kind("string"@))),
                ],
                seq![JsonView::Str("signature"@)],
            ),
    {
        let mut properties: JsonMap = Vec::new();
        properties.push(pair("signature", kind_json("string")));
        properties.push(pair("new_instruction", kind_json("string")));
        properties.push(pair("add_inputs", added_fields_json()));
        properties.push(pair("add_outputs", added_fields_json()));
        properties.push(pair("remove_fields", text_list_json()));
        let mut required: Vec<Json> = Vec::new();
        required.push(text_json("signature"));
        proof {
            assert(json::members_view(properties@) =~= seq![
                ("signature"@, of_kind("string"@)),
                ("new_instruction"@, of_kind("string"@)),
                ("add_inputs"@, list_of(added_field_schema())),
                ("add_outputs"@, list_of(added_field_schema())),
                ("remove_fields"@, list_of(of_kind("string"@))),
            ]);
            assert(json::items_view(required@) =~= seq![JsonView::Str("signature"@)]);
        }
        ToolDefinition {
            name: "modify_signature".to_owned(),
            description:
                "Modifies a signature by changing instruction or adding/removing fields.".to_owned(),
            parameters: parameters_json(properties, required),
        }
    }

    /// The change that is asked for. An empty list of fields adds none.
    pub fn modification(&self, args: ModifyArgs) -> (r: Modification)
        ensures
            r.instruction == args.new_instruction,
            r.remove_fields == args.remove_fields,
            adds(r.add_inputs, args.add_inputs, "input"@),
            adds(r.add_outputs, args.add_outputs, "output"@),
    {
        let add_inputs = some_added(&args.add_inputs, "input");
        let add_outputs = some_added(&args.add_outputs, "output");
        Modification {
            instruction: args.new_instruction,
            add_inputs,
            add_outputs,
            remove_fields: args.remove_fields,
        }
    }
}

/// Every field that is added keeps its name, its type and its description, and is marked with the
/// side that it is added on.
pub proof fn added_fields_keep_what_they_say(
    fields: &Vec<FieldDef>,
    side: &str,
    type_first: bool,
    r: JsonMap,
    i: int,
)
    requires
        call_ensures(added_fields, (fields, side, type_first), r),
        0 <= i < fields@.len(),
    ensures
        r@.len() == fields@.len(),
        r@[i].0@ == fields@[i].name@,
        r@[i].1@ matches JsonView::Object(m) && m.len() == 3 && m.contains(
            ("type"@, JsonView::Str(fields@[i].kind_name@)),
        ) && m.contains(("desc"@, JsonView::Str(fields@[i].desc@))) && m.last().1
            == JsonView::Str(side@),
{
    let all = json::members_view(r@);
    assert(all.len() == r@.len());
    assert(all[i] == added_field(fields@[i], side@, type_first));
    assert(all[i] == (r@[i].0@, r@[i].1@));
    let m = r@[i].1@->Object_0;
    assert(m[0] == m[0] && m[1] == m[1]);
}

/// Every part of a split is handed on with its name, its inputs and its outputs, in order.
pub proof fn parts_of_a_split_are_handed_on(points: &Vec<SplitPoint>, r: Vec<Json>, i: int, j: int)
    requires
        call_ensures(split_metadata, (points,), r),
        0 <= i < points@.len(),
    ensures
        r@.len() == points@.len(),
        r@[i]@ matches JsonView::Object(m) && m.len() == 3 && m[0] == (
            "name"@,
            JsonView::Str(points@[i].name@),
        ) && m[1].0 == "inputs"@ && (m[1].1 matches JsonView::Array(x) && x.len()
            == points@[i].inputs@.len() && (0 <= j < x.len() ==> x[j] == JsonView::Str(
            points@[i].inputs@[j]@,
        ))) && m[2].0 == "outputs"@ && (m[2].1 matches JsonView::Array(y) && y.len()
            == points@[i].outputs@.len() && (0 <= j < y.len() ==> y[j] == JsonView::Str(
            points@[i].outputs@[j]@,
        ))),
{
    assert(r@[i]@ == point_json(points@[i]));
    assert(text::views(points@[i].inputs@).len() == points@[i].inputs@.len());
    assert(text::views(points@[i].outputs@).len() == points@[i].outputs@.len());
}

} // verus!
