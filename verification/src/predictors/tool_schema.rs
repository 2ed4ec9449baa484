//! The signatures of tools, taken from the JSON schemas of their parameters, and the program of
//! one predictor.

use vstd::prelude::*;

use crate::json::Json;
use crate::text;

verus! {

/// The type of a field.
#[derive(Debug)]
pub enum FieldType {
    Text,
    Int,
    Float,
    Bool,
    List(Box<FieldType>),
    MapOf(Box<FieldType>, Box<FieldType>),
    Union(Vec<FieldType>),
    Optional(Box<FieldType>),
    Class(String),
    Enum(String),
}

pub enum TypeView {
    Text,
    Int,
    Float,
    Bool,
    List(Box<TypeView>),
    MapOf(Box<TypeView>, Box<TypeView>),
    Union(Seq<TypeView>),
    Optional(Box<TypeView>),
    Class(Seq<char>),
    Enum(Seq<char>),
}

impl FieldType {
    pub open spec fn value(&self) -> TypeView
        decreases self,
    {
        match self {
            FieldType::Text => TypeView::Text,
            FieldType::Int => TypeView::Int,
            FieldType::Float => TypeView::Float,
            FieldType::Bool => TypeView::Bool,
            FieldType::List(t) => TypeView::List(Box::new(t.value())),
            FieldType::MapOf(k, v) => TypeView::MapOf(Box::new(k.value()), Box::new(v.value())),
            FieldType::Union(items) => TypeView::Union(
                Seq::new(
                    items@.len(),
                    |i: int|
                        if 0 <= i < items@.len() {
                            items@[i].value()
                        } else {
                            TypeView::Text
                        },
                ),
            ),
            FieldType::Optional(t) => TypeView::Optional(Box::new(t.value())),
            FieldType::Class(n) => TypeView::Class(n@),
            FieldType::Enum(n) => TypeView::Enum(n@),
        }
    }
}

impl View for FieldType {
    type V = TypeView;

    open spec fn view(&self) -> TypeView {
        self.value()
    }
}

/// A field of a class or of a signature.
#[derive(Debug)]
pub struct FieldDef {
    pub name: String,
    pub field_type: FieldType,
    pub docs: Option<String>,
}

pub struct FieldView {
    pub name: Seq<char>,
    pub field_type: TypeView,
    pub docs: Option<Seq<char>>,
}

impl View for FieldDef {
    type V = FieldView;

    open spec fn view(&self) -> FieldView {
        FieldView {
            name: self.name@,
            field_type: self.field_type@,
            docs: text::opt_view(self.docs),
        }
    }
}

pub open spec fn field_views(fields: Seq<FieldDef>) -> Seq<FieldView> {
    Seq::new(fields.len(), |i: int| fields[i]@)
}

pub open spec fn type_views(types: Seq<FieldType>) -> Seq<TypeView> {
    Seq::new(types.len(), |i: int| types[i]@)
}

/// Enums and classes by name, in the order in which they were defined.
#[derive(Debug)]
pub struct TypeTable {
    pub enums: Vec<(String, Vec<String>)>,
    pub classes: Vec<(String, Vec<FieldDef>)>,
}

#[verifier::ext_equal]
pub struct TableView {
    pub enums: Seq<(Seq<char>, Seq<Seq<char>>)>,
    pub classes: Seq<(Seq<char>, Seq<FieldView>)>,
}

impl View for TypeTable {
    type V = TableView;

    open spec fn view(&self) -> TableView {
        TableView {
            enums: Seq::new(
                self.enums@.len(),
                |i: int| (self.enums@[i].0@, text::views(self.enums@[i].1@)),
            ),
            classes: Seq::new(
                self.classes@.len(),
                |i: int| (self.classes@[i].0@, field_views(self.classes@[i].1@)),
            ),
        }
    }
}

/// Where the first definition of a name stands, or the number of definitions.
pub open spec fn definition<T>(list: Seq<(Seq<char>, T)>, name: Seq<char>, i: int) -> int
    decreases list.len() - i,
{
    if i >= list.len() || list[i].0 == name {
        i
    } else {
        definition(list, name, i + 1)
    }
}

/// A list with a definition in place of the one of that name, or at the end.
pub open spec fn defined<T>(list: Seq<(Seq<char>, T)>, name: Seq<char>, value: T) -> Seq<
    (Seq<char>, T),
> {
    let at = definition(list, name, 0);
    if 0 <= at < list.len() {
        list.update(at, (name, value))
    } else {
        list.push((name, value))
    }
}

impl TypeTable {
    pub fn new() -> (r: Self)
        ensures
            r@ == (TableView { enums: Seq::empty(), classes: Seq::empty() }),
    {
        let r = TypeTable { enums: Vec::new(), classes: Vec::new() };
        proof {
            assert(r@.enums =~= Seq::empty());
            assert(r@.classes =~= Seq::empty());
        }
        r
    }

    /// Defines an enum.
    pub fn define_enum(&mut self, name: &str, values: Vec<String>)
        ensures
            final(self)@ == (TableView {
                enums: defined(old(self)@.enums, name@, text::views(values@)),
                ..old(self)@
            }),
    {
        let ghost prior = self@;
        let ghost shown = text::views(values@);
        let mut i: usize = 0;
        while i < self.enums.len() && !text::text_eq(self.enums[i].0.as_str(), name)
            invariant
                self@ == prior,
                i <= self.enums@.len(),
                definition(prior.enums, name@, 0) == definition(prior.enums, name@, i as int),
            decreases self.enums@.len() - i,
        {
            i += 1;
        }
        if i < self.enums.len() {
            self.enums.set(i, (name.to_owned(), values));
        } else {
            self.enums.push((name.to_owned(), values));
        }
        proof {
            assert(self@.enums =~= defined(prior.enums, name@, shown));
            assert(self@.classes =~= prior.classes);
        }
    }

    /// Defines a class.
    pub fn define_class(&mut self, name: &str, fields: Vec<FieldDef>)
        ensures
            final(self)@ == (TableView {
                classes: defined(old(self)@.classes, name@, field_views(fields@)),
                ..old(self)@
            }),
    {
        let ghost prior = self@;
        let ghost shown = field_views(fields@);
        let mut i: usize = 0;
        while i < self.classes.len() && !text::text_eq(self.classes[i].0.as_str(), name)
            invariant
                self@ == prior,
                i <= self.classes@.len(),
                definition(prior.classes, name@, 0) == definition(
                    prior.classes,
                    name@,
                    i as int,
                ),
            decreases self.classes@.len() - i,
        {
            i += 1;
        }
        if i < self.classes.len() {
            self.classes.set(i, (name.to_owned(), fields));
        } else {
            self.classes.push((name.to_owned(), fields));
        }
        proof {
            assert(self@.classes =~= defined(prior.classes, name@, shown));
            assert(self@.enums =~= prior.enums);
        }
    }
}

/// Where a member of an object stands, or -1.
pub open spec fn member(members: Seq<(String, Json)>, name: Seq<char>, i: int) -> int
    decreases members.len() - i,
{
    if i < 0 || i >= members.len() {
        -1
    } else if members[i].0@ == name {
        i
    } else {
        member(members, name, i + 1)
    }
}

fn find<'a>(members: &'a Vec<(String, Json)>, name: &str) -> (r: Option<&'a Json>)
    ensures
        match r {
            Some(v) => 0 <= member(members@, name@, 0) < members@.len() && *v == members@[member(
                members@,
                name@,
                0,
            )].1,
            None => member(members@, name@, 0) == -1,
        },
{
    let mut i: usize = 0;
    while i < members.len()
        invariant
            i <= members@.len(),
            member(members@, name@, 0) == member(members@, name@, i as int),
        decreases members@.len() - i,
    {
        if text::text_eq(members[i].0.as_str(), name) {
            return Some(&members[i].1);
        }
        i += 1;
    }
    None
}

/// The texts among the first `n` items.
pub open spec fn texts_in(items: Seq<Json>, n: nat) -> Seq<Seq<char>>
    decreases n,
{
    if n == 0 || n > items.len() {
        Seq::empty()
    } else {
        match items[n - 1] {
            Json::Str(t) => texts_in(items, (n - 1) as nat).push(t@),
            _ => texts_in(items, (n - 1) as nat),
        }
    }
}

fn texts_of(items: &Vec<Json>) -> (r: Vec<String>)
    ensures
        text::views(r@) == texts_in(items@, items@.len()),
{
    let mut out: Vec<String> = Vec::new();
    let mut i: usize = 0;
    proof {
        assert(text::views(out@) =~= Seq::empty());
    }
    while i < items.len()
        invariant
            i <= items@.len(),
            text::views(out@) == texts_in(items@, i as nat),
        decreases items@.len() - i,
    {
        match &items[i] {
            Json::Str(t) => text::push_line(&mut out, t.clone()),
            _ => {},
        }
        i += 1;
    }
    out
}

/// The texts that a member lists, if it is an array.
pub open spec fn listed(members: Seq<(String, Json)>, name: Seq<char>) -> Seq<Seq<char>> {
    let at = member(members, name, 0);
    if at < 0 {
        Seq::empty()
    } else {
        match members[at].1 {
            Json::Array(items) => texts_in(items@, items@.len()),
            _ => Seq::empty(),
        }
    }
}

fn list_texts(members: &Vec<(String, Json)>, name: &str) -> (r: Vec<String>)
    ensures
        text::views(r@) == listed(members@, name@),
{
    match find(members, name) {
        Some(Json::Array(items)) => texts_of(items),
        _ => {
            let none: Vec<String> = Vec::new();
            proof {
                assert(text::views(none@) =~= Seq::empty());
            }
            none
        },
    }
}

/// The text that a member is, if it is one.
pub open spec fn text_member(v: Json, name: Seq<char>) -> Option<Seq<char>> {
    match v {
        Json::Object(m) => {
            let at = member(m@, name, 0);
            if at < 0 {
                None
            } else {
                match m@[at].1 {
                    Json::Str(t) => Some(t@),
                    _ => None,
                }
            }
        },
        _ => None,
    }
}

fn text_member_of(v: &Json, name: &str) -> (r: Option<String>)
    ensures
        text::opt_view(r) == text_member(*v, name@),
{
    match v {
        Json::Object(m) => match find(m, name) {
            Some(Json::Str(t)) => Some(t.clone()),
            _ => None,
        },
        _ => None,
    }
}

/// The type that a schema comes to, and the definitions with those that it needs. `token` is the
/// name under which the schema itself would be defined.
pub open spec fn projected(token: Seq<char>, schema: Json, t: TableView) -> (TypeView, TableView)
    decreases schema, 0nat,
{
    match schema {
        Json::Object(m) => {
            let any_of = member(m@, "anyOf"@, 0);
            let names = listed(m@, "enum"@);
            if 0 <= any_of < m@.len() && m@[any_of].1 is Array {
                let items = m@[any_of].1->Array_0@;
                let done = projected_items(token, items, items.len(), t);
                (TypeView::Union(done.0), done.1)
            } else if names.len() > 0 {
                (
                    TypeView::Enum(token),
                    TableView { enums: defined(t.enums, token, names), ..t },
                )
            } else {
                let kind = text_member(schema, "type"@);
                if kind == Some("integer"@) {
                    (TypeView::Int, t)
                } else if kind == Some("number"@) {
                    (TypeView::Float, t)
                } else if kind == Some("boolean"@) {
                    (TypeView::Bool, t)
                } else if kind == Some("array"@) {
                    let at = member(m@, "items"@, 0);
                    if 0 <= at < m@.len() {
                        let done = projected(token + "_items"@, m@[at].1, t);
                        (TypeView::List(Box::new(done.0)), done.1)
                    } else {
                        (TypeView::List(Box::new(TypeView::Text)), t)
                    }
                } else if kind == Some("object"@) {
                    let props = member(m@, "properties"@, 0);
                    let more = member(m@, "additionalProperties"@, 0);
                    if 0 <= props < m@.len() && m@[props].1 is Object {
                        let list = m@[props].1->Object_0@;
                        let done = projected_fields(
                            token,
                            list,
                            listed(m@, "required"@),
                            list.len(),
                            t,
                        );
                        (
                            TypeView::Class(token),
                            TableView { classes: defined(done.1.classes, token, done.0), ..done.1 },
                        )
                    } else if 0 <= more < m@.len() && m@[more].1 is Object {
                        let done = projected(token + "_value"@, m@[more].1, t);
                        (
                            TypeView::MapOf(Box::new(TypeView::Text), Box::new(done.0)),
                            done.1,
                        )
                    } else {
                        (
                            TypeView::MapOf(Box::new(TypeView::Text), Box::new(TypeView::Text)),
                            t,
                        )
                    }
                } else {
                    (TypeView::Text, t)
                }
            }
        },
        _ => (TypeView::Text, t),
    }
}

/// The types of the first `n` schemas of a list, one after the other.
pub open spec fn projected_items(token: Seq<char>, items: Seq<Json>, n: nat, t: TableView) -> (
    Seq<TypeView>,
    TableView,
)
    decreases items, n,
{
    if n == 0 || n > items.len() {
        (Seq::empty(), t)
    } else {
        let before = projected_items(token, items, (n - 1) as nat, t);
        let done = projected(
            token + "_"@ + text::decimal((n - 1) as nat),
            items[n - 1],
            before.1,
        );
        (before.0.push(done.0), done.1)
    }
}

/// The fields that the first `n` properties come to. One that is not required is optional.
pub open spec fn projected_fields(
    token: Seq<char>,
    props: Seq<(String, Json)>,
    required: Seq<Seq<char>>,
    n: nat,
    t: TableView,
) -> (Seq<FieldView>, TableView)
    decreases props, n,
{
    if n == 0 || n > props.len() {
        (Seq::empty(), t)
    } else {
        let before = projected_fields(token, props, required, (n - 1) as nat, t);
        let name = props[n - 1].0@;
        let done = projected(token + "_"@ + name, props[n - 1].1, before.1);
        (
            before.0.push(
                FieldView {
                    name,
                    field_type: if required.contains(name) {
                        done.0
                    } else {
                        TypeView::Optional(Box::new(done.0))
                    },
                    docs: text_member(props[n - 1].1, "description"@),
                },
            ),
            done.1,
        )
    }
}

proof fn lemma_union(items: Vec<FieldType>)
    ensures
        FieldType::Union(items)@ == TypeView::Union(type_views(items@)),
{
    assert(FieldType::Union(items)@->Union_0 =~= type_views(items@));
}

#[verifier::loop_isolation(false)]
fn project_items(token: &str, items: &Vec<Json>, types: &mut TypeTable) -> (r: Vec<FieldType>)
    ensures
        (type_views(r@), final(types)@) == projected_items(
            token@,
            items@,
            items@.len(),
            old(types)@,
        ),
    decreases items, 0nat,
{
    let ghost start = types@;
    let mut out: Vec<FieldType> = Vec::new();
    let mut i: usize = 0;
    proof {
        assert(type_views(out@) =~= Seq::empty());
    }
    while i < items.len()
        invariant
            i <= items@.len(),
            (type_views(out@), types@) == projected_items(token@, items@, i as nat, start),
        decreases items@.len() - i,
    {
        let ghost prior = type_views(out@);
        let mut name = token.to_owned();
        name.append("_");
        let number = text::decimal_string(i as u64);
        name.append(number.as_str());
        let one = field_type_from_json_schema(name.as_str(), &items[i], types);
        let ghost shown = one@;
        out.push(one);
        proof {
            assert(type_views(out@) =~= prior.push(shown));
        }
        i += 1;
    }
    out
}

#[verifier::loop_isolation(false)]
fn project_fields(
    token: &str,
    props: &Vec<(String, Json)>,
    required: &Vec<String>,
    types: &mut TypeTable,
) -> (r: Vec<FieldDef>)
    ensures
        (field_views(r@), final(types)@) == projected_fields(
            token@,
            props@,
            text::views(required@),
            props@.len(),
            old(types)@,
        ),
    decreases props, 0nat,
{
    let ghost start = types@;
    let mut out: Vec<FieldDef> = Vec::new();
    let mut i: usize = 0;
    proof {
        assert(field_views(out@) =~= Seq::empty());
    }
    while i < props.len()
        invariant
            i <= props@.len(),
            (field_views(out@), types@) == projected_fields(
                token@,
                props@,
                text::views(required@),
                i as nat,
                start,
            ),
        decreases props@.len() - i,
    {
        let ghost prior = field_views(out@);
        let mut name = token.to_owned();
        name.append("_");
        name.append(props[i].0.as_str());
        let one = field_type_from_json_schema(name.as_str(), &props[i].1, types);
        let field_type = if text::contains_text(required, props[i].0.as_str()) {
            one
        } else {
            FieldType::Optional(Box::new(one))
        };
        let docs = text_member_of(&props[i].1, "description");
        let field = FieldDef { name: props[i].0.clone(), field_type, docs };
        let ghost shown = field@;
        out.push(field);
        proof {
            assert(field_views(out@) =~= prior.push(shown));
        }
        i += 1;
    }
    out
}

/// The type that a schema comes to. The definitions that it needs are added to `types`.
pub fn field_type_from_json_schema(token: &str, schema: &Json, types: &mut TypeTable) -> (r:
    FieldType)
    ensures
        (r@, final(types)@) == projected(token@, *schema, old(types)@),
    decreases schema, 1nat,
{
    proof {
        assert(FieldType::Text@ == TypeView::Text);
    }
    let m = match schema {
        Json::Object(m) => m,
        _ => {
            return FieldType::Text;
        },
    };
    match find(m, "anyOf") {
        Some(Json::Array(items)) => {
            let list = project_items(token, items, types);
            proof {
                lemma_union(list);
            }
            return FieldType::Union(list);
        },
        _ => {},
    }
    let names = list_texts(m, "enum");
    if names.len() > 0 {
        types.define_enum(token, names);
        return FieldType::Enum(token.to_owned());
    }
    let kind = match text_member_of(schema, "type") {
        Some(k) => k,
        None => {
            return FieldType::Text;
        },
    };
    if text::text_eq(kind.as_str(), "integer") {
        FieldType::Int
    } else if text::text_eq(kind.as_str(), "number") {
        FieldType::Float
    } else if text::text_eq(kind.as_str(), "boolean") {
        FieldType::Bool
    } else if text::text_eq(kind.as_str(), "array") {
        match find(m, "items") {
            Some(items) => {
                let mut name = token.to_owned();
                name.append("_items");
                FieldType::List(
                    Box::new(field_type_from_json_schema(name.as_str(), items, types)),
                )
            },
            None => FieldType::List(Box::new(FieldType::Text)),
        }
    } else if text::text_eq(kind.as_str(), "object") {
        match find(m, "properties") {
            Some(Json::Object(props)) => {
                let required = list_texts(m, "required");
                let fields = project_fields(token, props, &required, types);
                types.define_class(token, fields);
                FieldType::Class(token.to_owned())
            },
            _ => match find(m, "additionalProperties") {
                Some(more) => match more {
                    Json::Object(_) => {
                        let mut name = token.to_owned();
                        name.append("_value");
                        let inner = field_type_from_json_schema(name.as_str(), more, types);
                        FieldType::MapOf(Box::new(FieldType::Text), Box::new(inner))
                    },
                    _ => FieldType::MapOf(Box::new(FieldType::Text), Box::new(FieldType::Text)),
                },
                None => FieldType::MapOf(Box::new(FieldType::Text), Box::new(FieldType::Text)),
            },
        }
    } else {
        FieldType::Text
    }
}

/// What a tool takes and gives.
#[derive(Debug)]
pub struct SignatureDef {
    pub name: String,
    pub instruction: String,
    pub inputs: Vec<FieldDef>,
    pub outputs: Vec<FieldDef>,
}

/// The fields that the parameters of a tool come to, and the definitions that they need.
pub open spec fn parameter_fields(tool: Seq<char>, parameters: Json) -> (
    Seq<FieldView>,
    TableView,
) {
    let none = TableView { enums: Seq::empty(), classes: Seq::empty() };
    match parameters {
        Json::Object(m) => {
            let at = member(m@, "properties"@, 0);
            if 0 <= at < m@.len() && m@[at].1 is Object {
                let props = m@[at].1->Object_0@;
                projected_fields(tool, props, listed(m@, "required"@), props.len(), none)
            } else {
                (Seq::empty(), none)
            }
        },
        _ => (Seq::empty(), none),
    }
}

/// The signature of a tool by the schema of its parameters. Its one output is a text.
pub open spec fn is_tool_signature(d: SignatureDef, tool: Seq<char>, parameters: Json) -> bool {
    &&& d.name@ == tool + "_tool"@
    &&& d.instruction@.len() == 0
    &&& field_views(d.inputs@) == parameter_fields(tool, parameters).0
    &&& d.outputs@.len() == 1
    &&& d.outputs@[0]@ == (FieldView {
        name: "result"@,
        field_type: TypeView::Text,
        docs: None,
    })
}

/// The signature of a tool, and the definitions that it needs.
pub fn tool_signature_from_definition(tool_name: &str, parameters: &Json) -> (r: (
    SignatureDef,
    TypeTable,
))
    ensures
        is_tool_signature(r.0, tool_name@, *parameters),
        r.1@ == parameter_fields(tool_name@, *parameters).1,
{
    let mut types = TypeTable::new();
    let none: Vec<FieldDef> = Vec::new();
    proof {
        assert(field_views(none@) =~= Seq::empty());
    }
    let inputs = match parameters {
        Json::Object(m) => match find(m, "properties") {
            Some(Json::Object(props)) => {
                let required = list_texts(m, "required");
                project_fields(tool_name, props, &required, &mut types)
            },
            _ => none,
        },
        _ => none,
    };
    let mut name = tool_name.to_owned();
    name.append("_tool");
    let mut outputs: Vec<FieldDef> = Vec::new();
    outputs.push(FieldDef { name: "result".to_owned(), field_type: FieldType::Text, docs: None });
    (SignatureDef { name, instruction: String::new(), inputs, outputs }, types)
}

/// What a model is told of a tool.
#[derive(Debug)]
pub struct ToolDefinition {
    pub name: String,
    pub description: String,
    pub parameters: Json,
}

/// A tool of a program.
#[derive(Debug)]
pub struct ToolDecl {
    pub name: String,
    pub description: String,
    pub signature: SignatureDef,
    pub types: TypeTable,
}

/// A program of one leaf, which has the fields of its signature bound to it. With tools the leaf
/// is an agent, and without any it predicts.
#[derive(Debug)]
pub struct LeafProgram {
    pub leaf: String,
    pub inputs: Vec<String>,
    pub outputs: Vec<String>,
    pub tools: Vec<ToolDecl>,
}

/// The definition at `i` is the first of its name.
pub open spec fn is_first(definitions: Seq<ToolDefinition>, i: int) -> bool {
    forall|j: int|
        0 <= j < i ==> (#[trigger] definitions[j]).name@ != definitions[i].name@
}

/// The positions among the first `n` definitions that are the first of their name.
pub open spec fn kept_tools(definitions: Seq<ToolDefinition>, n: nat) -> Seq<int>
    decreases n,
{
    if n == 0 || n > definitions.len() {
        Seq::empty()
    } else if is_first(definitions, n - 1) {
        kept_tools(definitions, (n - 1) as nat).push(n - 1)
    } else {
        kept_tools(definitions, (n - 1) as nat)
    }
}

pub open spec fn is_declaration(d: ToolDecl, of: ToolDefinition) -> bool {
    &&& d.name@ == of.name@
    &&& d.description@ == of.description@
    &&& is_tool_signature(d.signature, of.name@, of.parameters)
    &&& d.types@ == parameter_fields(of.name@, of.parameters).1
}

/// The tools are those of the kept definitions, in order.
pub open spec fn declares(
    tools: Seq<ToolDecl>,
    definitions: Seq<ToolDefinition>,
    kept: Seq<int>,
) -> bool {
    tools.len() == kept.len() && forall|k: int|
        0 <= k < tools.len() ==> is_declaration(#[trigger] tools[k], definitions[kept[k]])
}

fn first_of_name(definitions: &Vec<ToolDefinition>, i: usize) -> (r: bool)
    requires
        i < definitions@.len(),
    ensures
        r == is_first(definitions@, i as int),
{
    let mut j: usize = 0;
    while j < i
        invariant
            j <= i < definitions@.len(),
            forall|k: int|
                0 <= k < j ==> (#[trigger] definitions@[k]).name@ != definitions@[i as int].name@,
        decreases i - j,
    {
        if text::text_eq(definitions[j].name.as_str(), definitions[i].name.as_str()) {
            return false;
        }
        j += 1;
    }
    true
}

/// The program of one predictor. Of tools with one name the first is kept.
pub fn build_program(
    leaf: &str,
    inputs: &Vec<String>,
    outputs: &Vec<String>,
    definitions: &Vec<ToolDefinition>,
) -> (r: LeafProgram)
    ensures
        r.leaf@ == leaf@,
        text::views(r.inputs@) == text::views(inputs@),
        text::views(r.outputs@) == text::views(outputs@),
        declares(r.tools@, definitions@, kept_tools(definitions@, definitions@.len())),
{
    let mut tools: Vec<ToolDecl> = Vec::new();
    let mut i: usize = 0;
    while i < definitions.len()
        invariant
            i <= definitions@.len(),
            declares(tools@, definitions@, kept_tools(definitions@, i as nat)),
        decreases definitions@.len() - i,
    {
        if first_of_name(definitions, i) {
            let d = &definitions[i];
            let (signature, types) = tool_signature_from_definition(
                d.name.as_str(),
                &d.parameters,
            );
            tools.push(
                ToolDecl {
                    name: d.name.clone(),
                    description: d.description.clone(),
                    signature,
                    types,
                },
            );
        }
        i += 1;
    }
    LeafProgram {
        leaf: leaf.to_owned(),
        inputs: text::clone_strings(inputs),
        outputs: text::clone_strings(outputs),
        tools,
    }
}

proof fn lemma_member(members: Seq<(String, Json)>, name: Seq<char>, from: int, i: int)
    requires
        0 <= from <= i < members.len(),
        members[i].0@ == name,
        forall|j: int| from <= j < i ==> (#[trigger] members[j]).0@ != name,
    ensures
        member(members, name, from) == i,
    decreases i - from,
{
    if from < i {
        assert(members[from].0@ != name);
        lemma_member(members, name, from + 1, i);
    }
}

proof fn lemma_no_member(members: Seq<(String, Json)>, name: Seq<char>, from: int)
    requires
        0 <= from <= members.len(),
        forall|j: int| from <= j < members.len() ==> (#[trigger] members[j]).0@ != name,
    ensures
        member(members, name, from) == -1,
    decreases members.len() - from,
{
    if from < members.len() {
        assert(members[from].0@ != name);
        lemma_no_member(members, name, from + 1);
    }
}

proof fn lemma_texts_in(items: Seq<Json>, n: nat, name: Seq<char>)
    requires
        n <= items.len(),
    ensures
        texts_in(items, n).contains(name) <==> exists|k: int|
            0 <= k < n && (#[trigger] items[k]) is Str && items[k]->Str_0@ == name,
    decreases n,
{
    if n > 0 {
        lemma_texts_in(items, (n - 1) as nat, name);
        let before = texts_in(items, (n - 1) as nat);
        let now = texts_in(items, n);
        if before.contains(name) {
            let k = before.index_of(name);
            assert(now[k] == name);
        }
        if let Json::Str(t) = items[n - 1] {
            assert(now[before.len() as int] == t@);
            if now.contains(name) && t@ != name {
                let k = now.index_of(name);
                assert(before[k] == name);
            }
            if t@ == name {
                assert(items[n - 1] is Str);
            }
        }
    }
}

proof fn lemma_projected_fields(
    token: Seq<char>,
    props: Seq<(String, Json)>,
    required: Seq<Seq<char>>,
    n: nat,
    t: TableView,
    i: int,
)
    requires
        0 <= i < n <= props.len(),
    ensures
        projected_fields(token, props, required, n, t).0.len() == n,
        projected_fields(token, props, required, n, t).0[i].name == props[i].0@,
        projected_fields(token, props, required, n, t).0[i].docs == text_member(
            props[i].1,
            "description"@,
        ),
        exists|before: TableView|
            projected_fields(token, props, required, n, t).0[i].field_type == (
            if required.contains(props[i].0@) {
                (#[trigger] projected(token + "_"@ + props[i].0@, props[i].1, before)).0
            } else {
                TypeView::Optional(
                    Box::new(projected(token + "_"@ + props[i].0@, props[i].1, before).0),
                )
            }),
    decreases n,
{
    let before = projected_fields(token, props, required, (n - 1) as nat, t);
    if n > 1 {
        let j = if i < n - 1 {
            i
        } else {
            0
        };
        lemma_projected_fields(token, props, required, (n - 1) as nat, t, j);
    }
    if i == n - 1 {
        let done = projected(token + "_"@ + props[i].0@, props[i].1, before.1);
        assert(projected(token + "_"@ + props[i].0@, props[i].1, before.1) == done);
    } else {
        assert(projected_fields(token, props, required, n, t).0[i] == before.0[i]);
    }
}

/// The signature of a tool has one input for each of its parameters, in order, under the same
/// name; a parameter is optional exactly where it is not required. What is said of it is kept.
pub proof fn tools_take_every_parameter(
    tool_name: &str,
    members: Vec<(String, Json)>,
    r: (SignatureDef, TypeTable),
    p: int,
    q: int,
    i: int,
)
    requires
        call_ensures(tool_signature_from_definition, (tool_name, &Json::Object(members)), r),
        0 <= p < members@.len(),
        members@[p].0@ == "properties"@,
        forall|j: int| 0 <= j < p ==> (#[trigger] members@[j]).0@ != "properties"@,
        members@[p].1 is Object,
        0 <= q < members@.len(),
        members@[q].0@ == "required"@,
        forall|j: int| 0 <= j < q ==> (#[trigger] members@[j]).0@ != "required"@,
        members@[q].1 is Array,
        0 <= i < members@[p].1->Object_0@.len(),
    ensures
        r.0.inputs@.len() == members@[p].1->Object_0@.len(),
        r.0.inputs@[i].name@ == members@[p].1->Object_0@[i].0@,
        r.0.inputs@[i].field_type@ is Optional <==> !(exists|k: int|
            0 <= k < members@[q].1->Array_0@.len() && (
            #[trigger] members@[q].1->Array_0@[k]) is Str && members@[q].1->Array_0@[k]->Str_0@
                == members@[p].1->Object_0@[i].0@),
        r.0.outputs@.len() == 1,
        r.0.outputs@[0].name@ == "result"@,
{
    let m = members@;
    let props = m[p].1->Object_0@;
    let items = m[q].1->Array_0@;
    lemma_member(m, "properties"@, 0, p);
    lemma_member(m, "required"@, 0, q);
    let required = listed(m, "required"@);
    assert(required == texts_in(items, items.len()));
    lemma_texts_in(items, items.len(), props[i].0@);
    let none = TableView { enums: Seq::empty(), classes: Seq::empty() };
    lemma_projected_fields(tool_name@, props, required, props.len(), none, i);
    let fields = projected_fields(tool_name@, props, required, props.len(), none).0;
    assert(field_views(r.0.inputs@) == fields);
    assert(field_views(r.0.inputs@).len() == r.0.inputs@.len());
    assert(field_views(r.0.inputs@)[i] == r.0.inputs@[i]@);
    assert(r.0.inputs@[i]@.name == r.0.inputs@[i].name@);
    assert(r.0.outputs@[0]@.name == "result"@);
    let before = choose|before: TableView|
        fields[i].field_type == (if required.contains(props[i].0@) {
            (#[trigger] projected(tool_name@ + "_"@ + props[i].0@, props[i].1, before)).0
        } else {
            TypeView::Optional(
                Box::new(projected(tool_name@ + "_"@ + props[i].0@, props[i].1, before).0),
            )
        });
    lemma_never_optional(tool_name@ + "_"@ + props[i].0@, props[i].1, before);
}

proof fn lemma_never_optional(token: Seq<char>, schema: Json, t: TableView)
    ensures
        !(projected(token, schema, t).0 is Optional),
{
}

/// A schema of a plain kind comes to that kind, and needs no definition.
pub proof fn plain_schemas_come_to_their_kind(
    token: &str,
    members: Vec<(String, Json)>,
    kind: String,
    types: &mut TypeTable,
    r: FieldType,
)
    requires
        call_ensures(field_type_from_json_schema, (token, &Json::Object(members), types), r),
        members@.len() == 1,
        members@[0].0@ == "type"@,
        members@[0].1 == Json::Str(kind),
    ensures
        kind@ == "integer"@ ==> r@ == TypeView::Int && final(types)@ == old(types)@,
        kind@ == "number"@ ==> r@ == TypeView::Float && final(types)@ == old(types)@,
        kind@ == "boolean"@ ==> r@ == TypeView::Bool && final(types)@ == old(types)@,
        kind@ == "string"@ ==> r@ == TypeView::Text && final(types)@ == old(types)@,
{
    reveal_strlit("type");
    reveal_strlit("anyOf");
    reveal_strlit("enum");
    reveal_strlit("integer");
    reveal_strlit("number");
    reveal_strlit("boolean");
    reveal_strlit("string");
    reveal_strlit("array");
    reveal_strlit("object");
    let m = members@;
    assert("type"@[0] == 't');
    assert("anyOf"@[0] == 'a');
    assert("enum"@[0] == 'e');
    assert("integer"@[0] == 'i' && "number"@[0] == 'n' && "boolean"@[0] == 'b' && "string"@[0]
        == 's' && "array"@[0] == 'a' && "object"@[0] == 'o');
    lemma_no_member(m, "anyOf"@, 0);
    lemma_no_member(m, "enum"@, 0);
    lemma_member(m, "type"@, 0, 0);
}

proof fn lemma_kept_tool(definitions: Seq<ToolDefinition>, n: nat, i: int) -> (k: int)
    requires
        0 <= i < n <= definitions.len(),
        is_first(definitions, i),
    ensures
        0 <= k < kept_tools(definitions, n).len(),
        kept_tools(definitions, n)[k] == i,
    decreases n,
{
    if i == n - 1 {
        kept_tools(definitions, (n - 1) as nat).len() as int
    } else {
        lemma_kept_tool(definitions, (n - 1) as nat, i)
    }
}

proof fn lemma_kept_tools(definitions: Seq<ToolDefinition>, n: nat)
    requires
        n <= definitions.len(),
    ensures
        forall|k: int|
            0 <= k < kept_tools(definitions, n).len() ==> 0 <= #[trigger] kept_tools(
                definitions,
                n,
            )[k] < n && is_first(definitions, kept_tools(definitions, n)[k]),
        forall|a: int, b: int|
            0 <= a < b < kept_tools(definitions, n).len() ==> #[trigger] kept_tools(
                definitions,
                n,
            )[a] < #[trigger] kept_tools(definitions, n)[b],
    decreases n,
{
    if n > 0 {
        lemma_kept_tools(definitions, (n - 1) as nat);
        let before = kept_tools(definitions, (n - 1) as nat);
        let now = kept_tools(definitions, n);
        assert forall|k: int| 0 <= k < now.len() implies 0 <= #[trigger] now[k] < n && is_first(
            definitions,
            now[k],
        ) by {
            if k < before.len() {
                assert(now[k] == before[k]);
            }
        }
        assert forall|a: int, b: int| 0 <= a < b < now.len() implies #[trigger] now[a]
            < #[trigger] now[b] by {
            assert(now[a] == before[a]);
            if b < before.len() {
                assert(now[b] == before[b]);
            }
        }
    }
}

/// Every tool is declared in the program, once, with the description of the first definition of
/// its name; the fields of the program are those that were given.
pub proof fn programs_declare_every_tool(
    leaf: &str,
    inputs: &Vec<String>,
    outputs: &Vec<String>,
    definitions: &Vec<ToolDefinition>,
    r: LeafProgram,
    i: int,
    a: int,
    b: int,
)
    requires
        call_ensures(build_program, (leaf, inputs, outputs, definitions), r),
        0 <= i < definitions@.len(),
        forall|j: int|
            0 <= j < i ==> (#[trigger] definitions@[j]).name@ != definitions@[i].name@,
    ensures
        exists|k: int|
            0 <= k < r.tools@.len() && (#[trigger] r.tools@[k]).name@ == definitions@[i].name@
                && r.tools@[k].description@ == definitions@[i].description@,
        0 <= a < b < r.tools@.len() ==> r.tools@[a].name@ != r.tools@[b].name@,
        r.leaf@ == leaf@,
        text::views(r.inputs@) == text::views(inputs@),
        text::views(r.outputs@) == text::views(outputs@),
{
    let at = kept_tools(definitions@, definitions@.len());
    let k = lemma_kept_tool(definitions@, definitions@.len(), i);
    assert(is_declaration(r.tools@[k], definitions@[at[k]]));
    lemma_kept_tools(definitions@, definitions@.len());
    if 0 <= a < b < r.tools@.len() {
        assert(is_declaration(r.tools@[a], definitions@[at[a]]));
        assert(is_declaration(r.tools@[b], definitions@[at[b]]));
        assert(at[a] < at[b]);
        assert(definitions@[at[a]].name@ != definitions@[at[b]].name@);
    }
}

} // verus!
