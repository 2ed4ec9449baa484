//! From the objects of the interpreter to the values of an output.

use vstd::prelude::*;

use crate::modules::rlm::json_data;
use crate::modules::rlm::json_data::{DataView, JsonData};
use crate::modules::rlm::types;
use crate::modules::rlm::types::{
    ClassField,
    FieldSchema,
    LiteralValue,
    OutputFormat,
    Primitive,
    StreamingMode,
    TypeIr,
};
use crate::modules::rlm::values;
use crate::modules::rlm::values::{BamlValue, BamlView, PyKind};
use crate::text;

verus! {

/// An object of the interpreter by what it answers when it is asked: what it is as a text, an
/// integer, a number or a truth value, or why it is none. `parsed` is the object that is made of what
/// a text holds as JSON, `dumped` the object written as JSON, `repr` the form in which it shows itself, and
/// `lenient` what a lenient reader makes of it, by the type that it reads for.
#[derive(Debug)]
pub struct PyObject {
    pub kind: PyKind,
    pub kind_name: String,
    pub text: Result<String, String>,
    pub integer: Result<i64, String>,
    pub fraction: Result<u64, String>,
    pub truth: Result<bool, String>,
    pub parsed: Option<Box<PyObject>>,
    pub items: Vec<PyObject>,
    pub entries: Vec<(PyObject, PyObject)>,
    pub dumped: Result<String, String>,
    pub repr: Option<String>,
    pub lenient: Vec<(TypeIr, BamlValue)>,
}

/// A constraint that was put to a value.
#[derive(Debug)]
pub struct ResponseCheck {
    pub name: String,
    pub expression: String,
    pub status: String,
}

impl Clone for ResponseCheck {
    fn clone(&self) -> (r: Self)
        ensures
            r == *self,
    {
        ResponseCheck {
            name: self.name.clone(),
            expression: self.expression.clone(),
            status: self.status.clone(),
        }
    }
}

/// Why an object cannot be converted: where, what was expected there, and what was found.
#[derive(Debug)]
pub struct BamlConvertError {
    pub path: Vec<String>,
    pub expected: String,
    pub got: String,
    pub message: String,
}

impl BamlConvertError {
    /// Where the error is, from the outside to the inside.
    pub fn path_string(&self) -> (r: String)
        ensures
            r@ == text::join(text::views(self.path@), "."@),
    {
        text::join_strs(&self.path, ".")
    }
}

/// Why keyword arguments are no output.
#[derive(Debug)]
pub enum BamlParseError {
    Convert(BamlConvertError),
    Jsonish(String),
    ConstraintAssertsFailed { failed: Vec<ResponseCheck> },
}

pub enum ParseErrorView {
    Convert { path: Seq<Seq<char>>, expected: Seq<char>, got: Seq<char>, message: Seq<char> },
    Jsonish(Seq<char>),
    AssertsFailed(Seq<ResponseCheck>),
}

impl View for BamlParseError {
    type V = ParseErrorView;

    open spec fn view(&self) -> ParseErrorView {
        match self {
            BamlParseError::Convert(e) => ParseErrorView::Convert {
                path: text::views(e.path@),
                expected: e.expected@,
                got: e.got@,
                message: e.message@,
            },
            BamlParseError::Jsonish(m) => ParseErrorView::Jsonish(m@),
            BamlParseError::ConstraintAssertsFailed { failed } => ParseErrorView::AssertsFailed(
                failed@,
            ),
        }
    }
}

/// A result by what is in it.
pub open spec fn outcome(r: Result<BamlValue, BamlParseError>) -> Result<BamlView, ParseErrorView> {
    match r {
        Ok(v) => Ok(v@),
        Err(e) => Err(e@),
    }
}

pub open spec fn missing_field(path: Seq<Seq<char>>, field: Seq<char>) -> ParseErrorView {
    ParseErrorView::Convert {
        path: path.push(field),
        expected: "field"@,
        got: "missing"@,
        message: "missing required field "@ + field,
    }
}

fn missing_field_error(path: &Vec<String>, field: &str) -> (r: BamlParseError)
    ensures
        r@ == missing_field(text::views(path@), field@),
{
    let mut full = text::clone_strings(path);
    full.push(field.to_owned());
    let mut message = "missing required field ".to_owned();
    message.append(field);
    proof {
        assert(text::views(full@) =~= text::views(path@).push(field@));
    }
    BamlParseError::Convert(
        BamlConvertError {
            path: full,
            expected: "field".to_owned(),
            got: "missing".to_owned(),
            message,
        },
    )
}

/// An object that is not of the expected type.
pub open spec fn mismatch(path: Seq<Seq<char>>, expected: Seq<char>, got: PyObject) -> ParseErrorView {
    ParseErrorView::Convert {
        path,
        expected: "schema"@,
        got: got.kind_name@,
        message: "expected "@ + expected,
    }
}

fn conversion_error(path: &Vec<String>, expected: &str, got: &PyObject) -> (r: BamlParseError)
    ensures
        r@ == mismatch(text::views(path@), expected@, *got),
{
    let mut message = "expected ".to_owned();
    message.append(expected);
    BamlParseError::Convert(
        BamlConvertError {
            path: text::clone_strings(path),
            expected: "schema".to_owned(),
            got: got.kind_name.clone(),
            message,
        },
    )
}

/// A text is taken for itself, not for JSON.
pub open spec fn wants_text(t: TypeIr) -> bool {
    match t {
        TypeIr::Primitive(Primitive::Text) => true,
        TypeIr::Literal { value: LiteralValue::Text(_), .. } => true,
        _ => false,
    }
}

fn is_string_target(t: &TypeIr) -> (r: bool)
    ensures
        r == wants_text(*t),
{
    match t {
        TypeIr::Primitive(p) => match p {
            Primitive::Text => true,
            _ => false,
        },
        TypeIr::Literal { value, .. } => match value {
            LiteralValue::Text(_) => true,
            _ => false,
        },
        _ => false,
    }
}

/// The type admits that nothing is there.
pub open spec fn admits_null(t: TypeIr) -> bool {
    match t {
        TypeIr::Primitive(Primitive::Null) => true,
        TypeIr::Union { nullable, .. } => nullable,
        _ => false,
    }
}

fn type_admits_null(t: &TypeIr) -> (r: bool)
    ensures
        r == admits_null(*t),
{
    match t {
        TypeIr::Primitive(p) => match p {
            Primitive::Null => true,
            _ => false,
        },
        TypeIr::Union { nullable, .. } => *nullable,
        _ => false,
    }
}

/// The first class from `from` on with the name, or the number of classes.
pub open spec fn any_class(f: OutputFormat, name: Seq<char>, from: int) -> int
    decreases f.classes@.len() - from,
{
    if from >= f.classes@.len() {
        f.classes@.len() as int
    } else if f.classes@[from].raw_name@ == name {
        from
    } else {
        any_class(f, name, from + 1)
    }
}

/// The class with the name: the form that is not for streaming, else any.
pub open spec fn class_for(f: OutputFormat, name: Seq<char>) -> int {
    let i = f.class_index(name, StreamingMode::NonStreaming, 0);
    if i < f.classes@.len() {
        i
    } else {
        any_class(f, name, 0)
    }
}

fn find_class(f: &OutputFormat, name: &str) -> (r: usize)
    ensures
        r == class_for(*f, name@),
        r <= f.classes@.len(),
{
    let mut i: usize = 0;
    while i < f.classes.len()
        invariant
            i <= f.classes@.len(),
            f.class_index(name@, StreamingMode::NonStreaming, 0) == f.class_index(
                name@,
                StreamingMode::NonStreaming,
                i as int,
            ),
        decreases f.classes@.len() - i,
    {
        if text::text_eq(f.classes[i].raw_name.as_str(), name) && f.classes[i].mode
            == StreamingMode::NonStreaming {
            return i;
        }
        i += 1;
    }
    let mut k: usize = 0;
    while k < f.classes.len()
        invariant
            k <= f.classes@.len(),
            any_class(*f, name@, 0) == any_class(*f, name@, k as int),
            f.class_index(name@, StreamingMode::NonStreaming, 0) == f.classes@.len(),
        decreases f.classes@.len() - k,
    {
        if text::text_eq(f.classes[k].raw_name.as_str(), name) {
            return k;
        }
        k += 1;
    }
    k
}

/// The type that a lenient reader is asked for: a class is meant in the form that is not for
/// streaming.
pub open spec fn asked_of_reader(t: TypeIr) -> TypeIr {
    match t {
        TypeIr::Class { name, .. } => TypeIr::Class { name, mode: StreamingMode::NonStreaming },
        _ => t,
    }
}

fn is_asked_of_reader(held: &TypeIr, t: &TypeIr) -> (r: bool)
    ensures
        r == types::same_type(*held, asked_of_reader(*t)),
{
    match t {
        TypeIr::Class { name, .. } => types::is_same_type(
            held,
            &TypeIr::Class { name: name.clone(), mode: StreamingMode::NonStreaming },
        ),
        _ => types::is_same_type(held, t),
    }
}

/// What a lenient reader makes of an object for a type.
pub open spec fn lenient_index(list: Seq<(TypeIr, BamlValue)>, t: TypeIr, from: int) -> int
    decreases list.len() - from,
{
    if from >= list.len() {
        list.len() as int
    } else if types::same_type(list[from].0, asked_of_reader(t)) {
        from
    } else {
        lenient_index(list, t, from + 1)
    }
}

/// An object that has not the shape of its type: what the lenient reader makes of it, else it
/// is refused.
pub open spec fn leniently(obj: PyObject, t: TypeIr, path: Seq<Seq<char>>) -> Result<
    BamlView,
    ParseErrorView,
> {
    let i = lenient_index(obj.lenient@, t, 0);
    if 0 <= i < obj.lenient@.len() {
        Ok(obj.lenient@[i].1@)
    } else {
        Err(mismatch(path, types::plain_label(t), obj))
    }
}

fn lenient_or_error(obj: &PyObject, t: &TypeIr, path: &Vec<String>) -> (r: Result<
    BamlValue,
    BamlParseError,
>)
    ensures
        outcome(r) == leniently(*obj, *t, text::views(path@)),
{
    let mut i: usize = 0;
    while i < obj.lenient.len()
        invariant
            i <= obj.lenient@.len(),
            lenient_index(obj.lenient@, *t, 0) == lenient_index(obj.lenient@, *t, i as int),
        decreases obj.lenient@.len() - i,
    {
        if is_asked_of_reader(&obj.lenient[i].0, t) {
            return Ok(obj.lenient[i].1.clone());
        }
        i += 1;
    }
    let label = types::plain_type_label(t);
    Err(conversion_error(path, label.as_str(), obj))
}

/// The first entry of a dictionary from `from` on whose key is the text, or the number of
/// entries.
pub open spec fn key_index(entries: Seq<(PyObject, PyObject)>, name: Seq<char>, from: int) -> int
    decreases entries.len() - from,
{
    if from >= entries.len() {
        entries.len() as int
    } else if entries[from].0.text is Ok && entries[from].0.text->Ok_0@ == name {
        from
    } else {
        key_index(entries, name, from + 1)
    }
}

pub fn find_key(entries: &Vec<(PyObject, PyObject)>, name: &str) -> (r: usize)
    ensures
        r == key_index(entries@, name@, 0),
        r <= entries@.len(),
{
    let mut i: usize = 0;
    while i < entries.len()
        invariant
            i <= entries@.len(),
            key_index(entries@, name@, 0) == key_index(entries@, name@, i as int),
        decreases entries@.len() - i,
    {
        match &entries[i].0.text {
            Ok(t) => {
                if text::text_eq(t.as_str(), name) {
                    return i;
                }
            },
            Err(_) => {},
        }
        i += 1;
    }
    i
}

/// The entry of a field: under the name that a model reads, else under the real one.
pub open spec fn entry_for(entries: Seq<(PyObject, PyObject)>, field: ClassField) -> int {
    let i = key_index(entries, field.name.rendered@, 0);
    if i < entries.len() {
        i
    } else {
        key_index(entries, field.name.real@, 0)
    }
}

/// JSON as a value.
pub open spec fn json_value(d: DataView) -> BamlView
    decreases d, 0nat,
{
    match d {
        DataView::Null => BamlView::Null,
        DataView::Bool(b) => BamlView::Bool(b),
        DataView::Number { integer, fraction } => match integer {
            Some(n) => BamlView::Int(n),
            None => match fraction {
                Some(n) => BamlView::Float(n),
                None => BamlView::Null,
            },
        },
        DataView::Text(t) => BamlView::Text(t),
        DataView::Array(items) => BamlView::List(json_list(items, items.len())),
        DataView::Object(members) => BamlView::Dict(json_fields(members, members.len())),
    }
}

pub open spec fn json_list(items: Seq<DataView>, n: nat) -> Seq<BamlView>
    decreases items, n,
{
    if n == 0 || n > items.len() {
        Seq::empty()
    } else {
        json_list(items, (n - 1) as nat).push(json_value(items[n - 1]))
    }
}

pub open spec fn json_fields(members: Seq<(Seq<char>, DataView)>, n: nat) -> Seq<(Seq<char>, BamlView)>
    decreases members, n,
{
    if n == 0 || n > members.len() {
        Seq::empty()
    } else {
        values::with_field(
            json_fields(members, (n - 1) as nat),
            members[n - 1].0,
            json_value(members[n - 1].1),
        )
    }
}

/// JSON as a value.
pub fn json_value_to_baml_value(d: &JsonData) -> (r: BamlValue)
    ensures
        r@ == json_value(d@),
    decreases d,
{
    match d {
        JsonData::Null => BamlValue::Null,
        JsonData::Bool(b) => BamlValue::Bool(*b),
        JsonData::Number { integer, fraction } => match integer {
            Some(n) => BamlValue::Int(*n),
            None => match fraction {
                Some(n) => BamlValue::Float(*n),
                None => BamlValue::Null,
            },
        },
        JsonData::Text(t) => BamlValue::Text(t.clone()),
        JsonData::Array(items) => {
            let ghost held = json_data::items_view(items@);
            let mut out: Vec<BamlValue> = Vec::new();
            let mut i: usize = 0;
            proof {
                json_data::lemma_array_view(*items);
                assert(values::list_view(out@) =~= json_list(held, 0));
            }
            #[verifier::loop_isolation(false)]
            while i < items.len()
                invariant
                    i <= items@.len(),
                    values::list_view(out@) == json_list(held, i as nat),
                decreases items@.len() - i,
            {
                let ghost before = out@;
                out.push(json_value_to_baml_value(&items[i]));
                i += 1;
                proof {
                    assert(held[i - 1] == items@[i - 1]@);
                    assert(values::list_view(out@) =~= values::list_view(before).push(
                        json_value(held[i - 1]),
                    ));
                }
            }
            proof {
                values::lemma_list(out);
            }
            BamlValue::List(out)
        },
        JsonData::Object(members) => {
            let ghost held = json_data::members_view(members@);
            let mut out: Vec<(String, BamlValue)> = Vec::new();
            let mut i: usize = 0;
            proof {
                json_data::lemma_object_view(*members);
                assert(values::fields_view(out@) =~= json_fields(held, 0));
            }
            #[verifier::loop_isolation(false)]
            while i < members.len()
                invariant
                    i <= members@.len(),
                    values::fields_view(out@) == json_fields(held, i as nat),
                decreases members@.len() - i,
            {
                proof {
                    assert(held[i as int] == (members@[i as int].0@, members@[i as int].1@));
                }
                let value = json_value_to_baml_value(&members[i].1);
                values::put_field(&mut out, members[i].0.clone(), value);
                i += 1;
            }
            proof {
                values::lemma_dict(out);
            }
            BamlValue::Dict(out)
        },
    }
}

/// The object says that it is no number.
pub open spec fn is_no_number(obj: PyObject) -> bool {
    obj.integer is Err && obj.fraction is Err
}

/// The object is what the interpreter makes of JSON.
pub open spec fn made_of(obj: PyObject, d: DataView) -> bool
    decreases d,
{
    match d {
        DataView::Null => obj.kind == PyKind::Null,
        DataView::Bool(b) => obj.kind == PyKind::Bool && obj.truth == Ok::<bool, String>(b),
        DataView::Number { integer, fraction } => match integer {
            Some(n) => obj.kind == PyKind::Int && obj.integer == Ok::<i64, String>(n),
            None => match fraction {
                Some(n) => obj.kind == PyKind::Float && obj.integer is Err && obj.fraction == Ok::<
                    u64,
                    String,
                >(n),
                None => obj.kind == PyKind::Null,
            },
        },
        DataView::Text(t) => obj.kind == PyKind::Text && is_no_number(obj)
            && obj.text is Ok && obj.text->Ok_0@ == t,
        DataView::Array(items) => obj.kind == PyKind::List && is_no_number(obj) && obj.text is Err
            && obj.items@.len() == items.len() && forall|i: int|
            0 <= i < items.len() ==> made_of(obj.items@[i], #[trigger] items[i]),
        DataView::Object(members) => obj.kind == PyKind::Dict && is_no_number(obj) && obj.text
            is Err && obj.entries@.len() == members.len() && forall|i: int|
            0 <= i < members.len() ==> (#[trigger] obj.entries@[i]).0.text is Ok
                && obj.entries@[i].0.text->Ok_0@ == members[i].0 && made_of(
                obj.entries@[i].1,
                members[i].1,
            ),
    }
}

/// The text is JSON, and the interpreter made an object of it.
pub open spec fn holds_object(obj: PyObject) -> bool {
    obj.text is Ok && json_data::json_reading(obj.text->Ok_0@) is Ok && obj.parsed is Some
}

fn object_in_text(obj: &PyObject) -> (r: Option<&Box<PyObject>>)
    ensures
        match r {
            Some(inner) => holds_object(*obj) && obj.parsed == Some(*inner),
            None => !holds_object(*obj),
        },
{
    match (&obj.text, &obj.parsed) {
        (Ok(raw), Some(inner)) => match json_data::read_json(raw.as_str()) {
            Ok(_) => Some(inner),
            Err(_) => None,
        },
        _ => None,
    }
}

/// An object as a value of no particular type.
pub open spec fn untyped(obj: PyObject) -> Result<BamlView, ParseErrorView>
    decreases obj, 0nat,
{
    if obj.kind == PyKind::Null {
        Ok(BamlView::Null)
    } else if obj.kind == PyKind::Bool {
        match obj.truth {
            Ok(b) => Ok(BamlView::Bool(b)),
            Err(e) => Err(ParseErrorView::Jsonish(e@)),
        }
    } else if obj.integer is Ok {
        Ok(BamlView::Int(obj.integer->Ok_0))
    } else if obj.fraction is Ok {
        Ok(BamlView::Float(obj.fraction->Ok_0))
    } else if obj.text is Ok {
        Ok(BamlView::Text(obj.text->Ok_0@))
    } else if obj.kind == PyKind::Dict {
        match untyped_entries(obj.entries@, obj.entries@.len()) {
            Ok(v) => Ok(BamlView::Dict(v)),
            Err(e) => Err(e),
        }
    } else if obj.kind == PyKind::List || obj.kind == PyKind::Tuple {
        match untyped_items(obj.items@, obj.items@.len()) {
            Ok(v) => Ok(BamlView::List(v)),
            Err(e) => Err(e),
        }
    } else {
        match obj.dumped {
            Ok(raw) => match json_data::json_reading(raw@) {
                Ok(d) => Ok(json_value(d)),
                Err(e) => Err(ParseErrorView::Jsonish(e)),
            },
            Err(e) => Err(ParseErrorView::Jsonish(e@)),
        }
    }
}

pub open spec fn untyped_items(items: Seq<PyObject>, n: nat) -> Result<
    Seq<BamlView>,
    ParseErrorView,
>
    decreases items, n,
{
    if n == 0 || n > items.len() {
        Ok(Seq::empty())
    } else {
        match untyped_items(items, (n - 1) as nat) {
            Err(e) => Err(e),
            Ok(before) => match untyped(items[n - 1]) {
                Err(e) => Err(e),
                Ok(v) => Ok(before.push(v)),
            },
        }
    }
}

pub open spec fn untyped_entries(entries: Seq<(PyObject, PyObject)>, n: nat) -> Result<
    Seq<(Seq<char>, BamlView)>,
    ParseErrorView,
>
    decreases entries, n,
{
    if n == 0 || n > entries.len() {
        Ok(Seq::empty())
    } else {
        match untyped_entries(entries, (n - 1) as nat) {
            Err(e) => Err(e),
            Ok(before) => match entries[n - 1].0.text {
                Err(e) => Err(ParseErrorView::Jsonish(e@)),
                Ok(key) => match untyped(entries[n - 1].1) {
                    Err(e) => Err(e),
                    Ok(v) => Ok(values::with_field(before, key@, v)),
                },
            },
        }
    }
}

proof fn lemma_untyped_items_error(items: Seq<PyObject>, a: nat, b: nat)
    requires
        a <= b <= items.len(),
        untyped_items(items, a) is Err,
    ensures
        untyped_items(items, b) == untyped_items(items, a),
    decreases b,
{
    if a < b {
        lemma_untyped_items_error(items, a, (b - 1) as nat);
    }
}

proof fn lemma_untyped_entries_error(entries: Seq<(PyObject, PyObject)>, a: nat, b: nat)
    requires
        a <= b <= entries.len(),
        untyped_entries(entries, a) is Err,
    ensures
        untyped_entries(entries, b) == untyped_entries(entries, a),
    decreases b,
{
    if a < b {
        lemma_untyped_entries_error(entries, a, (b - 1) as nat);
    }
}

fn untyped_list(items: &Vec<PyObject>) -> (r: Result<BamlValue, BamlParseError>)
    ensures
        outcome(r) == (match untyped_items(items@, items@.len()) {
            Ok(v) => Ok::<BamlView, ParseErrorView>(BamlView::List(v)),
            Err(e) => Err(e),
        }),
    decreases items,
{
    let mut out: Vec<BamlValue> = Vec::new();
    let mut i: usize = 0;
    proof {
        assert(values::list_view(out@) =~= Seq::empty());
    }
    #[verifier::loop_isolation(false)]
    while i < items.len()
        invariant
            i <= items@.len(),
            untyped_items(items@, i as nat) == Ok::<Seq<BamlView>, ParseErrorView>(
                values::list_view(out@),
            ),
        decreases items@.len() - i,
    {
        match py_any_to_baml_value_untyped(&items[i]) {
            Ok(v) => {
                let ghost before = out@;
                out.push(v);
                proof {
                    assert(values::list_view(out@) =~= values::list_view(before).push(v@));
                }
            },
            Err(e) => {
                proof {
                    assert(untyped_items(items@, (i + 1) as nat) == Err::<
                        Seq<BamlView>,
                        ParseErrorView,
                    >(e@));
                    lemma_untyped_items_error(items@, (i + 1) as nat, items@.len());
                }
                return Err(e);
            },
        }
        i += 1;
    }
    proof {
        values::lemma_list(out);
    }
    Ok(BamlValue::List(out))
}

fn untyped_dict(entries: &Vec<(PyObject, PyObject)>) -> (r: Result<BamlValue, BamlParseError>)
    ensures
        outcome(r) == (match untyped_entries(entries@, entries@.len()) {
            Ok(v) => Ok::<BamlView, ParseErrorView>(BamlView::Dict(v)),
            Err(e) => Err(e),
        }),
    decreases entries,
{
    let mut out: Vec<(String, BamlValue)> = Vec::new();
    let mut i: usize = 0;
    proof {
        assert(values::fields_view(out@) =~= Seq::empty());
    }
    #[verifier::loop_isolation(false)]
    while i < entries.len()
        invariant
            i <= entries@.len(),
            untyped_entries(entries@, i as nat) == Ok::<
                Seq<(Seq<char>, BamlView)>,
                ParseErrorView,
            >(values::fields_view(out@)),
        decreases entries@.len() - i,
    {
        let ghost next = untyped_entries(entries@, (i + 1) as nat);
        let key = match &entries[i].0.text {
            Ok(t) => t.clone(),
            Err(e) => {
                proof {
                    assert(next == Err::<Seq<(Seq<char>, BamlView)>, ParseErrorView>(
                        ParseErrorView::Jsonish(e@),
                    ));
                    lemma_untyped_entries_error(entries@, (i + 1) as nat, entries@.len());
                }
                return Err(BamlParseError::Jsonish(e.clone()));
            },
        };
        match py_any_to_baml_value_untyped(&entries[i].1) {
            Ok(v) => values::put_field(&mut out, key, v),
            Err(e) => {
                proof {
                    assert(next == Err::<Seq<(Seq<char>, BamlView)>, ParseErrorView>(e@));
                    lemma_untyped_entries_error(entries@, (i + 1) as nat, entries@.len());
                }
                return Err(e);
            },
        }
        i += 1;
    }
    proof {
        values::lemma_dict(out);
    }
    Ok(BamlValue::Dict(out))
}

/// An object as a value of no particular type.
pub fn py_any_to_baml_value_untyped(obj: &PyObject) -> (r: Result<BamlValue, BamlParseError>)
    ensures
        outcome(r) == untyped(*obj),
    decreases obj,
{
    if obj.kind == PyKind::Null {
        return Ok(BamlValue::Null);
    }
    if obj.kind == PyKind::Bool {
        return match &obj.truth {
            Ok(b) => Ok(BamlValue::Bool(*b)),
            Err(e) => Err(BamlParseError::Jsonish(e.clone())),
        };
    }
    match &obj.integer {
        Ok(n) => {
            return Ok(BamlValue::Int(*n));
        },
        Err(_) => {},
    }
    match &obj.fraction {
        Ok(n) => {
            return Ok(BamlValue::Float(*n));
        },
        Err(_) => {},
    }
    match &obj.text {
        Ok(t) => {
            return Ok(BamlValue::Text(t.clone()));
        },
        Err(_) => {},
    }
    if obj.kind == PyKind::Dict {
        return untyped_dict(&obj.entries);
    }
    if obj.kind == PyKind::List || obj.kind == PyKind::Tuple {
        return untyped_list(&obj.items);
    }
    match &obj.dumped {
        Ok(raw) => match json_data::read_json(raw.as_str()) {
            Ok(d) => Ok(json_value_to_baml_value(&d)),
            Err(e) => Err(BamlParseError::Jsonish(e)),
        },
        Err(e) => Err(BamlParseError::Jsonish(e.clone())),
    }
}

proof fn lemma_made_list(objects: Seq<PyObject>, items: Seq<DataView>, n: nat)
    requires
        n <= items.len(),
        objects.len() == items.len(),
        forall|i: int| 0 <= i < items.len() ==> made_of(objects[i], #[trigger] items[i]),
    ensures
        untyped_items(objects, n) == Ok::<Seq<BamlView>, ParseErrorView>(json_list(items, n)),
    decreases items, n,
{
    if n > 0 {
        lemma_made_list(objects, items, (n - 1) as nat);
        assert(made_of(objects[n - 1], items[n - 1]));
        json_comes_back_from_the_interpreter(objects[n - 1], items[n - 1]);
    }
}

proof fn lemma_made_fields(
    entries: Seq<(PyObject, PyObject)>,
    members: Seq<(Seq<char>, DataView)>,
    n: nat,
)
    requires
        n <= members.len(),
        entries.len() == members.len(),
        forall|i: int|
            0 <= i < members.len() ==> (#[trigger] entries[i]).0.text is Ok
                && entries[i].0.text->Ok_0@ == members[i].0 && made_of(
                entries[i].1,
                members[i].1,
            ),
    ensures
        untyped_entries(entries, n) == Ok::<Seq<(Seq<char>, BamlView)>, ParseErrorView>(
            json_fields(members, n),
        ),
    decreases members, n,
{
    if n > 0 {
        lemma_made_fields(entries, members, (n - 1) as nat);
        assert(made_of(entries[n - 1].1, members[n - 1].1));
        json_comes_back_from_the_interpreter(entries[n - 1].1, members[n - 1].1);
    }
}

/// JSON that was handed to the interpreter comes back as the value that it is read as.
pub proof fn json_comes_back_from_the_interpreter(obj: PyObject, d: DataView)
    requires
        made_of(obj, d),
    ensures
        untyped(obj) == Ok::<BamlView, ParseErrorView>(json_value(d)),
    decreases d, 0nat,
{
    match d {
        DataView::Array(items) => {
            lemma_made_list(obj.items@, items, items.len());
        },
        DataView::Object(members) => {
            lemma_made_fields(obj.entries@, members, members.len());
        },
        _ => {},
    }
}

/// The text is one of the values of an enum, by either name.
pub open spec fn is_variant(f: OutputFormat, i: int, raw: Seq<char>) -> bool {
    exists|k: int|
        0 <= k < f.enums@[i].values@.len() && ((#[trigger] f.enums@[i].values@[k]).real@ == raw
            || f.enums@[i].values@[k].rendered@ == raw)
}

/// The type is an alias that stands for another type.
pub open spec fn leads_on(t: TypeIr, f: OutputFormat) -> bool {
    t matches TypeIr::Alias { name } && f.alias_index(name@, 0) < f.aliases@.len()
}

/// An object as a value of a type. `path` is where the object is, and `jumps` bounds how many
/// aliases are followed before a part of the object is looked at.
pub open spec fn converted(
    obj: PyObject,
    t: TypeIr,
    f: OutputFormat,
    path: Seq<Seq<char>>,
    jumps: nat,
) -> Result<BamlView, ParseErrorView>
    decreases obj, jumps, t, 0nat,
{
    let full = f.aliases@.len();
    let refused = Err::<BamlView, ParseErrorView>(mismatch(path, types::plain_label(t), obj));
    let known = leads_on(t, f) && jumps > 0;
    if !known && !wants_text(t) && obj.kind == PyKind::Text && obj.text is Err {
        Err(ParseErrorView::Jsonish(obj.text->Err_0@))
    } else if !known && !wants_text(t) && obj.kind == PyKind::Text && holds_object(obj) {
        converted(*obj.parsed->0, t, f, path, full)
    } else {
        match t {
            TypeIr::Alias { name } => {
                let i = f.alias_index(name@, 0);
                if 0 <= i < f.aliases@.len() && jumps > 0 {
                    converted(obj, f.aliases@[i].1, f, path, (jumps - 1) as nat)
                } else {
                    Err(ParseErrorView::Jsonish("missing recursive alias "@ + name@))
                }
            },
            TypeIr::Primitive(p) => match p {
                Primitive::Text => match obj.text {
                    Ok(s) => Ok(BamlView::Text(s@)),
                    Err(e) => Err(ParseErrorView::Jsonish(e@)),
                },
                Primitive::Int => if obj.kind == PyKind::Bool {
                    refused
                } else {
                    match obj.integer {
                        Ok(n) => Ok(BamlView::Int(n)),
                        Err(e) => Err(ParseErrorView::Jsonish(e@)),
                    }
                },
                Primitive::Float => if obj.kind == PyKind::Bool {
                    refused
                } else {
                    match obj.fraction {
                        Ok(n) => Ok(BamlView::Float(n)),
                        Err(e) => Err(ParseErrorView::Jsonish(e@)),
                    }
                },
                Primitive::Bool => match obj.truth {
                    Ok(b) => Ok(BamlView::Bool(b)),
                    Err(e) => Err(ParseErrorView::Jsonish(e@)),
                },
                Primitive::Null => if obj.kind == PyKind::Null {
                    Ok(BamlView::Null)
                } else {
                    refused
                },
                Primitive::Media => refused,
            },
            TypeIr::Enum { name } => match obj.text {
                Err(e) => Err(ParseErrorView::Jsonish(e@)),
                Ok(raw) => {
                    let i = f.enum_index(name@, 0);
                    if !(0 <= i < f.enums@.len()) {
                        Err(ParseErrorView::Jsonish("missing enum definition for "@ + name@))
                    } else if is_variant(f, i, raw@) {
                        Ok(BamlView::Enum(name@, raw@))
                    } else {
                        refused
                    }
                },
            },
            TypeIr::Literal { value, .. } => match value {
                LiteralValue::Text(literal) => match obj.text {
                    Err(e) => Err(ParseErrorView::Jsonish(e@)),
                    Ok(raw) => if raw@ == literal@ {
                        Ok(BamlView::Text(raw@))
                    } else {
                        refused
                    },
                },
                LiteralValue::Int(literal) => if obj.kind == PyKind::Bool {
                    refused
                } else {
                    match obj.integer {
                        Err(e) => Err(ParseErrorView::Jsonish(e@)),
                        Ok(raw) => if raw == literal {
                            Ok(BamlView::Int(raw))
                        } else {
                            refused
                        },
                    }
                },
                LiteralValue::Bool(literal) => match obj.truth {
                    Err(e) => Err(ParseErrorView::Jsonish(e@)),
                    Ok(raw) => if raw == literal {
                        Ok(BamlView::Bool(raw))
                    } else {
                        refused
                    },
                },
            },
            TypeIr::Class { name, .. } => if obj.kind != PyKind::Dict {
                leniently(obj, t, path)
            } else {
                let i = class_for(f, name@);
                if !(0 <= i < f.classes@.len()) {
                    Err(ParseErrorView::Jsonish("missing class definition for "@ + name@))
                } else {
                    match converted_fields(
                        obj.entries@,
                        f.classes@[i].fields@,
                        f.classes@[i].fields@.len(),
                        f,
                        path,
                    ) {
                        Err(e) => Err(e),
                        Ok(v) => Ok(BamlView::Class(name@, v)),
                    }
                }
            },
            TypeIr::List(item) => if obj.kind == PyKind::List || obj.kind == PyKind::Tuple {
                match converted_items(obj.items@, obj.items@.len(), *item, f, path) {
                    Err(e) => Err(e),
                    Ok(v) => Ok(BamlView::List(v)),
                }
            } else {
                leniently(obj, t, path)
            },
            TypeIr::MapOf(key, value) => if !wants_text(*key) {
                Err(
                    ParseErrorView::Convert {
                        path,
                        expected: "string"@,
                        got: types::plain_label(*key),
                        message: "map keys must be strings"@,
                    },
                )
            } else if obj.kind != PyKind::Dict {
                leniently(obj, t, path)
            } else {
                match converted_entries(
                    obj.entries@,
                    obj.entries@.len(),
                    types::plain_label(*key),
                    *value,
                    f,
                    path,
                ) {
                    Err(e) => Err(e),
                    Ok(v) => Ok(BamlView::Dict(v)),
                }
            },
            TypeIr::Tuple { items, .. } => if (obj.kind == PyKind::List || obj.kind
                == PyKind::Tuple) && obj.items@.len() == items@.len() {
                match converted_pairs(obj.items@, obj.items@.len(), items@, f, path) {
                    Err(e) => Err(e),
                    Ok(v) => Ok(BamlView::List(v)),
                }
            } else {
                refused
            },
            TypeIr::Top { .. } => untyped(obj),
            TypeIr::Arrow { .. } => refused,
            TypeIr::Union { options, nullable } => if options@.len() == 0 {
                if obj.kind == PyKind::Null {
                    Ok(BamlView::Null)
                } else {
                    refused
                }
            } else if nullable && options@.len() == 1 {
                if obj.kind == PyKind::Null {
                    Ok(BamlView::Null)
                } else {
                    converted(obj, options@[0], f, path, jumps)
                }
            } else {
                first_converted(obj, options@, options@.len(), f, path, jumps)
            },
        }
    }
}

/// The result of trying the first `n` types, of which there is at least one: the first that
/// fits, else the error of the last.
pub open spec fn first_converted(
    obj: PyObject,
    options: Seq<TypeIr>,
    n: nat,
    f: OutputFormat,
    path: Seq<Seq<char>>,
    jumps: nat,
) -> Result<BamlView, ParseErrorView>
    decreases obj, jumps, options, n,
{
    if n == 0 || n > options.len() {
        Err(ParseErrorView::Jsonish(Seq::empty()))
    } else if n > 1 && first_converted(obj, options, (n - 1) as nat, f, path, jumps) is Ok {
        first_converted(obj, options, (n - 1) as nat, f, path, jumps)
    } else {
        converted(obj, options[n - 1], f, path, jumps)
    }
}

/// The first `n` items of a list as values of one type.
pub open spec fn converted_items(
    items: Seq<PyObject>,
    n: nat,
    item: TypeIr,
    f: OutputFormat,
    path: Seq<Seq<char>>,
) -> Result<Seq<BamlView>, ParseErrorView>
    decreases items, n, f, 0nat,
{
    if n == 0 || n > items.len() {
        Ok(Seq::empty())
    } else {
        match converted_items(items, (n - 1) as nat, item, f, path) {
            Err(e) => Err(e),
            Ok(before) => match converted(
                items[n - 1],
                item,
                f,
                path.push(text::decimal((n - 1) as nat)),
                f.aliases@.len(),
            ) {
                Err(e) => Err(e),
                Ok(v) => Ok(before.push(v)),
            },
        }
    }
}

/// The first `n` items of a list, each as a value of its own type.
pub open spec fn converted_pairs(
    items: Seq<PyObject>,
    n: nat,
    types_of: Seq<TypeIr>,
    f: OutputFormat,
    path: Seq<Seq<char>>,
) -> Result<Seq<BamlView>, ParseErrorView>
    decreases items, n, f, 0nat,
{
    if n == 0 || n > items.len() {
        Ok(Seq::empty())
    } else {
        match converted_pairs(items, (n - 1) as nat, types_of, f, path) {
            Err(e) => Err(e),
            Ok(before) => match converted(
                items[n - 1],
                types_of[n - 1],
                f,
                path.push(text::decimal((n - 1) as nat)),
                f.aliases@.len(),
            ) {
                Err(e) => Err(e),
                Ok(v) => Ok(before.push(v)),
            },
        }
    }
}

/// The first `n` entries of a dictionary, their values of one type.
pub open spec fn converted_entries(
    entries: Seq<(PyObject, PyObject)>,
    n: nat,
    key_name: Seq<char>,
    value: TypeIr,
    f: OutputFormat,
    path: Seq<Seq<char>>,
) -> Result<Seq<(Seq<char>, BamlView)>, ParseErrorView>
    decreases entries, n, f, 0nat,
{
    if n == 0 || n > entries.len() {
        Ok(Seq::empty())
    } else {
        match converted_entries(entries, (n - 1) as nat, key_name, value, f, path) {
            Err(e) => Err(e),
            Ok(before) => match entries[n - 1].0.text {
                Err(_) => Err(mismatch(path, key_name, entries[n - 1].0)),
                Ok(key) => match converted(
                    entries[n - 1].1,
                    value,
                    f,
                    path.push(key@),
                    f.aliases@.len(),
                ) {
                    Err(e) => Err(e),
                    Ok(v) => Ok(values::with_field(before, key@, v)),
                },
            },
        }
    }
}

/// The first `n` fields of a class, out of the entries of a dictionary.
pub open spec fn converted_fields(
    entries: Seq<(PyObject, PyObject)>,
    fields: Seq<ClassField>,
    n: nat,
    f: OutputFormat,
    path: Seq<Seq<char>>,
) -> Result<Seq<(Seq<char>, BamlView)>, ParseErrorView>
    decreases entries, n, f, 0nat,
{
    if n == 0 || n > fields.len() {
        Ok(Seq::empty())
    } else {
        match converted_fields(entries, fields, (n - 1) as nat, f, path) {
            Err(e) => Err(e),
            Ok(before) => {
                let field = fields[n - 1];
                let i = entry_for(entries, field);
                if !(0 <= i < entries.len()) {
                    if admits_null(field.type_ir) {
                        Ok(values::with_field(before, field.name.real@, BamlView::Null))
                    } else {
                        Err(missing_field(path, field.name.real@))
                    }
                } else {
                    match converted(
                        entries[i].1,
                        field.type_ir,
                        f,
                        path.push(field.name.real@),
                        f.aliases@.len(),
                    ) {
                        Err(e) => Err(e),
                        Ok(v) => Ok(values::with_field(before, field.name.real@, v)),
                    }
                }
            },
        }
    }
}

proof fn lemma_items_error(
    items: Seq<PyObject>,
    a: nat,
    b: nat,
    item: TypeIr,
    f: OutputFormat,
    path: Seq<Seq<char>>,
)
    requires
        a <= b <= items.len(),
        converted_items(items, a, item, f, path) is Err,
    ensures
        converted_items(items, b, item, f, path) == converted_items(items, a, item, f, path),
    decreases b,
{
    if a < b {
        lemma_items_error(items, a, (b - 1) as nat, item, f, path);
    }
}

proof fn lemma_pairs_error(
    items: Seq<PyObject>,
    a: nat,
    b: nat,
    types_of: Seq<TypeIr>,
    f: OutputFormat,
    path: Seq<Seq<char>>,
)
    requires
        a <= b <= items.len(),
        converted_pairs(items, a, types_of, f, path) is Err,
    ensures
        converted_pairs(items, b, types_of, f, path) == converted_pairs(
            items,
            a,
            types_of,
            f,
            path,
        ),
    decreases b,
{
    if a < b {
        lemma_pairs_error(items, a, (b - 1) as nat, types_of, f, path);
    }
}

proof fn lemma_entries_error(
    entries: Seq<(PyObject, PyObject)>,
    a: nat,
    b: nat,
    key_name: Seq<char>,
    value: TypeIr,
    f: OutputFormat,
    path: Seq<Seq<char>>,
)
    requires
        a <= b <= entries.len(),
        converted_entries(entries, a, key_name, value, f, path) is Err,
    ensures
        converted_entries(entries, b, key_name, value, f, path) == converted_entries(
            entries,
            a,
            key_name,
            value,
            f,
            path,
        ),
    decreases b,
{
    if a < b {
        lemma_entries_error(entries, a, (b - 1) as nat, key_name, value, f, path);
    }
}

proof fn lemma_fields_error(
    entries: Seq<(PyObject, PyObject)>,
    fields: Seq<ClassField>,
    a: nat,
    b: nat,
    f: OutputFormat,
    path: Seq<Seq<char>>,
)
    requires
        a <= b <= fields.len(),
        converted_fields(entries, fields, a, f, path) is Err,
    ensures
        converted_fields(entries, fields, b, f, path) == converted_fields(
            entries,
            fields,
            a,
            f,
            path,
        ),
    decreases b,
{
    if a < b {
        lemma_fields_error(entries, fields, a, (b - 1) as nat, f, path);
    }
}

fn has_variant(f: &OutputFormat, name: &str, raw: &str) -> (r: Option<bool>)
    ensures
        ({
            let i = f.enum_index(name@, 0);
            match r {
                Some(b) => 0 <= i < f.enums@.len() && b == is_variant(*f, i, raw@),
                None => i == f.enums@.len(),
            }
        }),
{
    match f.find_enum(name) {
        None => None,
        Some(e) => {
            let ghost at = f.enum_index(name@, 0);
            let mut k: usize = 0;
            while k < e.values.len()
                invariant
                    k <= e.values@.len(),
                    at == f.enum_index(name@, 0),
                    0 <= at < f.enums@.len(),
                    *e == f.enums@[at],
                    forall|j: int|
                        0 <= j < k ==> (#[trigger] e.values@[j]).real@ != raw@
                            && e.values@[j].rendered@ != raw@,
                decreases e.values@.len() - k,
            {
                if text::text_eq(e.values[k].real.as_str(), raw) || text::text_eq(
                    e.values[k].rendered.as_str(),
                    raw,
                ) {
                    proof {
                        assert(f.enums@[at].values@[k as int] == e.values@[k as int]);
                    }
                    return Some(true);
                }
                k += 1;
            }
            Some(false)
        },
    }
}

/// Goes down one step of a path.
fn enter(path: &mut Vec<String>, segment: String)
    ensures
        text::views(final(path)@) == text::views(old(path)@).push(segment@),
{
    path.push(segment);
    proof {
        assert(text::views(path@) =~= text::views(old(path)@).push(segment@));
    }
}

/// Goes back up one step of a path.
fn leave(path: &mut Vec<String>)
    requires
        text::views(old(path)@).len() > 0,
    ensures
        text::views(final(path)@) == text::views(old(path)@).drop_last(),
{
    proof {
        assert(text::views(path@).len() == path@.len());
    }
    path.pop();
    proof {
        assert(text::views(path@) =~= text::views(old(path)@).drop_last());
    }
}

fn text_error(e: &String) -> (r: Result<BamlValue, BamlParseError>)
    ensures
        outcome(r) == Err::<BamlView, ParseErrorView>(ParseErrorView::Jsonish(e@)),
{
    Err(BamlParseError::Jsonish(e.clone()))
}

fn refuse(obj: &PyObject, t: &TypeIr, path: &Vec<String>) -> (r: Result<
    BamlValue,
    BamlParseError,
>)
    ensures
        outcome(r) == Err::<BamlView, ParseErrorView>(
            mismatch(text::views(path@), types::plain_label(*t), *obj),
        ),
{
    let name = types::plain_type_label(t);
    Err(conversion_error(path, name.as_str(), obj))
}

/// A primitive type.
fn convert_primitive(
    obj: &PyObject,
    p: Primitive,
    t: &TypeIr,
    f: &OutputFormat,
    path: &Vec<String>,
) -> (r: Result<BamlValue, BamlParseError>)
    requires
        *t == TypeIr::Primitive(p),
        p == Primitive::Text || obj.kind != PyKind::Text || (obj.text is Ok && !holds_object(*obj)),
    ensures
        forall|jumps: nat|
            outcome(r) == #[trigger] converted(*obj, *t, *f, text::views(path@), jumps),
{
    match p {
        Primitive::Text => match &obj.text {
            Ok(s) => Ok(BamlValue::Text(s.clone())),
            Err(e) => text_error(e),
        },
        Primitive::Int => if obj.kind == PyKind::Bool {
            refuse(obj, t, path)
        } else {
            match &obj.integer {
                Ok(n) => Ok(BamlValue::Int(*n)),
                Err(e) => text_error(e),
            }
        },
        Primitive::Float => if obj.kind == PyKind::Bool {
            refuse(obj, t, path)
        } else {
            match &obj.fraction {
                Ok(n) => Ok(BamlValue::Float(*n)),
                Err(e) => text_error(e),
            }
        },
        Primitive::Bool => match &obj.truth {
            Ok(b) => Ok(BamlValue::Bool(*b)),
            Err(e) => text_error(e),
        },
        Primitive::Null => if obj.kind == PyKind::Null {
            Ok(BamlValue::Null)
        } else {
            refuse(obj, t, path)
        },
        Primitive::Media => refuse(obj, t, path),
    }
}

/// A type with one value.
fn convert_literal(
    obj: &PyObject,
    value: &LiteralValue,
    t: &TypeIr,
    f: &OutputFormat,
    path: &Vec<String>,
) -> (r: Result<BamlValue, BamlParseError>)
    requires
        t is Literal,
        t->Literal_value == *value,
        value is Text || obj.kind != PyKind::Text || (obj.text is Ok && !holds_object(*obj)),
    ensures
        forall|jumps: nat|
            outcome(r) == #[trigger] converted(*obj, *t, *f, text::views(path@), jumps),
{
    match value {
        LiteralValue::Text(literal) => match &obj.text {
            Err(e) => text_error(e),
            Ok(raw) => if text::text_eq(raw.as_str(), literal.as_str()) {
                Ok(BamlValue::Text(raw.clone()))
            } else {
                refuse(obj, t, path)
            },
        },
        LiteralValue::Int(literal) => if obj.kind == PyKind::Bool {
            refuse(obj, t, path)
        } else {
            match &obj.integer {
                Err(e) => text_error(e),
                Ok(raw) => if *raw == *literal {
                    Ok(BamlValue::Int(*raw))
                } else {
                    refuse(obj, t, path)
                },
            }
        },
        LiteralValue::Bool(literal) => match &obj.truth {
            Err(e) => text_error(e),
            Ok(raw) => if *raw == *literal {
                Ok(BamlValue::Bool(*raw))
            } else {
                refuse(obj, t, path)
            },
        },
    }
}

/// A value of an enum.
fn convert_enum(
    obj: &PyObject,
    name: &String,
    t: &TypeIr,
    f: &OutputFormat,
    path: &Vec<String>,
) -> (r: Result<BamlValue, BamlParseError>)
    requires
        *t == (TypeIr::Enum { name: *name }),
        obj.kind != PyKind::Text || (obj.text is Ok && !holds_object(*obj)),
    ensures
        forall|jumps: nat|
            outcome(r) == #[trigger] converted(*obj, *t, *f, text::views(path@), jumps),
{
    match &obj.text {
        Err(e) => text_error(e),
        Ok(raw) => match has_variant(f, name.as_str(), raw.as_str()) {
            None => {
                let mut message = "missing enum definition for ".to_owned();
                message.append(name.as_str());
                Err(BamlParseError::Jsonish(message))
            },
            Some(true) => Ok(BamlValue::Enum(name.clone(), raw.clone())),
            Some(false) => refuse(obj, t, path),
        },
    }
}

/// The items of a list, each of one type.
fn convert_items(
    items: &Vec<PyObject>,
    item: &TypeIr,
    f: &OutputFormat,
    path: &mut Vec<String>,
) -> (r: Result<BamlValue, BamlParseError>)
    ensures
        outcome(r) == (match converted_items(
            items@,
            items@.len(),
            *item,
            *f,
            text::views(old(path)@),
        ) {
            Ok(v) => Ok::<BamlView, ParseErrorView>(BamlView::List(v)),
            Err(e) => Err(e),
        }),
        text::views(final(path)@) == text::views(old(path)@),
    decreases items, 0nat, f, 0nat,
{
    let ghost here = text::views(path@);
    let total = items.len();
    let mut out: Vec<BamlValue> = Vec::new();
    let mut i: usize = 0;
    proof {
        assert(values::list_view(out@) =~= Seq::empty());
    }
    #[verifier::loop_isolation(false)]
    while i < total
        invariant
            i <= total,
            total == items@.len(),
            text::views(path@) == here,
            converted_items(items@, i as nat, *item, *f, here) == Ok::<
                Seq<BamlView>,
                ParseErrorView,
            >(values::list_view(out@)),
        decreases total - i,
    {
        enter(path, text::decimal_string(i as u64));
        let result = py_to_baml_value_inner(&items[i], item, f, path, f.aliases.len());
        leave(path);
        proof {
            assert(here.push(text::decimal(i as nat)).drop_last() =~= here);
        }
        match result {
            Ok(v) => {
                let ghost before = out@;
                out.push(v);
                proof {
                    assert(values::list_view(out@) =~= values::list_view(before).push(v@));
                }
            },
            Err(e) => {
                proof {
                    assert(converted_items(items@, (i + 1) as nat, *item, *f, here) == Err::<
                        Seq<BamlView>,
                        ParseErrorView,
                    >(e@));
                    lemma_items_error(items@, (i + 1) as nat, items@.len(), *item, *f, here);
                }
                return Err(e);
            },
        }
        i += 1;
    }
    proof {
        values::lemma_list(out);
    }
    Ok(BamlValue::List(out))
}

/// The items of a tuple, each of its own type.
fn convert_pairs(
    items: &Vec<PyObject>,
    types_of: &Vec<TypeIr>,
    f: &OutputFormat,
    path: &mut Vec<String>,
) -> (r: Result<BamlValue, BamlParseError>)
    requires
        items@.len() == types_of@.len(),
    ensures
        outcome(r) == (match converted_pairs(
            items@,
            items@.len(),
            types_of@,
            *f,
            text::views(old(path)@),
        ) {
            Ok(v) => Ok::<BamlView, ParseErrorView>(BamlView::List(v)),
            Err(e) => Err(e),
        }),
        text::views(final(path)@) == text::views(old(path)@),
    decreases items, 0nat, f, 0nat,
{
    let ghost here = text::views(path@);
    let total = items.len();
    let mut out: Vec<BamlValue> = Vec::new();
    let mut i: usize = 0;
    proof {
        assert(values::list_view(out@) =~= Seq::empty());
    }
    #[verifier::loop_isolation(false)]
    while i < total
        invariant
            i <= total,
            total == items@.len(),
            text::views(path@) == here,
            converted_pairs(items@, i as nat, types_of@, *f, here) == Ok::<
                Seq<BamlView>,
                ParseErrorView,
            >(values::list_view(out@)),
        decreases total - i,
    {
        enter(path, text::decimal_string(i as u64));
        let result = py_to_baml_value_inner(&items[i], &types_of[i], f, path, f.aliases.len());
        leave(path);
        proof {
            assert(here.push(text::decimal(i as nat)).drop_last() =~= here);
        }
        match result {
            Ok(v) => {
                let ghost before = out@;
                out.push(v);
                proof {
                    assert(values::list_view(out@) =~= values::list_view(before).push(v@));
                }
            },
            Err(e) => {
                proof {
                    assert(converted_pairs(items@, (i + 1) as nat, types_of@, *f, here) == Err::<
                        Seq<BamlView>,
                        ParseErrorView,
                    >(e@));
                    lemma_pairs_error(items@, (i + 1) as nat, items@.len(), types_of@, *f, here);
                }
                return Err(e);
            },
        }
        i += 1;
    }
    proof {
        values::lemma_list(out);
    }
    Ok(BamlValue::List(out))
}

/// The entries of a dictionary, their values of one type.
fn convert_entries(
    entries: &Vec<(PyObject, PyObject)>,
    key_name: &str,
    value: &TypeIr,
    f: &OutputFormat,
    path: &mut Vec<String>,
) -> (r: Result<BamlValue, BamlParseError>)
    ensures
        outcome(r) == (match converted_entries(
            entries@,
            entries@.len(),
            key_name@,
            *value,
            *f,
            text::views(old(path)@),
        ) {
            Ok(v) => Ok::<BamlView, ParseErrorView>(BamlView::Dict(v)),
            Err(e) => Err(e),
        }),
        text::views(final(path)@) == text::views(old(path)@),
    decreases entries, 0nat, f, 0nat,
{
    let ghost here = text::views(path@);
    let mut out: Vec<(String, BamlValue)> = Vec::new();
    let mut i: usize = 0;
    proof {
        assert(values::fields_view(out@) =~= Seq::empty());
    }
    #[verifier::loop_isolation(false)]
    while i < entries.len()
        invariant
            i <= entries@.len(),
            text::views(path@) == here,
            converted_entries(entries@, i as nat, key_name@, *value, *f, here) == Ok::<
                Seq<(Seq<char>, BamlView)>,
                ParseErrorView,
            >(values::fields_view(out@)),
        decreases entries@.len() - i,
    {
        let ghost next = converted_entries(
            entries@,
            (i + 1) as nat,
            key_name@,
            *value,
            *f,
            here,
        );
        let key = match &entries[i].0.text {
            Ok(k) => k.clone(),
            Err(_) => {
                let e = conversion_error(path, key_name, &entries[i].0);
                proof {
                    assert(next == Err::<Seq<(Seq<char>, BamlView)>, ParseErrorView>(e@));
                    lemma_entries_error(
                        entries@,
                        (i + 1) as nat,
                        entries@.len(),
                        key_name@,
                        *value,
                        *f,
                        here,
                    );
                }
                return Err(e);
            },
        };
        enter(path, key.clone());
        let result = py_to_baml_value_inner(&entries[i].1, value, f, path, f.aliases.len());
        leave(path);
        proof {
            assert(here.push(key@).drop_last() =~= here);
        }
        match result {
            Ok(v) => values::put_field(&mut out, key, v),
            Err(e) => {
                proof {
                    assert(next == Err::<Seq<(Seq<char>, BamlView)>, ParseErrorView>(e@));
                    lemma_entries_error(
                        entries@,
                        (i + 1) as nat,
                        entries@.len(),
                        key_name@,
                        *value,
                        *f,
                        here,
                    );
                }
                return Err(e);
            },
        }
        i += 1;
    }
    proof {
        values::lemma_dict(out);
    }
    Ok(BamlValue::Dict(out))
}

/// The fields of a class, out of the entries of a dictionary.
fn convert_fields(
    entries: &Vec<(PyObject, PyObject)>,
    class_name: &String,
    fields: &Vec<ClassField>,
    f: &OutputFormat,
    path: &mut Vec<String>,
) -> (r: Result<BamlValue, BamlParseError>)
    ensures
        outcome(r) == (match converted_fields(
            entries@,
            fields@,
            fields@.len(),
            *f,
            text::views(old(path)@),
        ) {
            Ok(v) => Ok::<BamlView, ParseErrorView>(BamlView::Class(class_name@, v)),
            Err(e) => Err(e),
        }),
        text::views(final(path)@) == text::views(old(path)@),
    decreases entries, 0nat, f, 0nat,
{
    let ghost here = text::views(path@);
    let mut out: Vec<(String, BamlValue)> = Vec::new();
    let mut i: usize = 0;
    proof {
        assert(values::fields_view(out@) =~= Seq::empty());
    }
    #[verifier::loop_isolation(false)]
    while i < fields.len()
        invariant
            i <= fields@.len(),
            text::views(path@) == here,
            converted_fields(entries@, fields@, i as nat, *f, here) == Ok::<
                Seq<(Seq<char>, BamlView)>,
                ParseErrorView,
            >(values::fields_view(out@)),
        decreases fields@.len() - i,
    {
        let ghost next = converted_fields(entries@, fields@, (i + 1) as nat, *f, here);
        let field = &fields[i];
        let mut at = find_key(entries, field.name.rendered.as_str());
        if at >= entries.len() {
            at = find_key(entries, field.name.real.as_str());
        }
        proof {
            assert(at == entry_for(entries@, *field));
        }
        if at >= entries.len() {
            if type_admits_null(&field.type_ir) {
                let value = BamlValue::Null;
                values::put_field(&mut out, field.name.real.clone(), value);
            } else {
                let e = missing_field_error(path, field.name.real.as_str());
                proof {
                    assert(next == Err::<Seq<(Seq<char>, BamlView)>, ParseErrorView>(e@));
                    lemma_fields_error(
                        entries@,
                        fields@,
                        (i + 1) as nat,
                        fields@.len(),
                        *f,
                        here,
                    );
                }
                return Err(e);
            }
        } else {
            enter(path, field.name.real.clone());
            let result = py_to_baml_value_inner(
                &entries[at].1,
                &field.type_ir,
                f,
                path,
                f.aliases.len(),
            );
            leave(path);
            proof {
                assert(here.push(field.name.real@).drop_last() =~= here);
            }
            match result {
                Ok(v) => values::put_field(&mut out, field.name.real.clone(), v),
                Err(e) => {
                    proof {
                        assert(next == Err::<Seq<(Seq<char>, BamlView)>, ParseErrorView>(e@));
                        lemma_fields_error(
                            entries@,
                            fields@,
                            (i + 1) as nat,
                            fields@.len(),
                            *f,
                            here,
                        );
                    }
                    return Err(e);
                },
            }
        }
        i += 1;
    }
    let name = class_name.clone();
    proof {
        values::lemma_class(name, out);
    }
    Ok(BamlValue::Class(name, out))
}

/// The first of several types that fits.
fn convert_options(
    obj: &PyObject,
    options: &Vec<TypeIr>,
    f: &OutputFormat,
    path: &mut Vec<String>,
    jumps: usize,
) -> (r: Result<BamlValue, BamlParseError>)
    requires
        options@.len() > 0,
    ensures
        outcome(r) == first_converted(
            *obj,
            options@,
            options@.len(),
            *f,
            text::views(old(path)@),
            jumps as nat,
        ),
        text::views(final(path)@) == text::views(old(path)@),
    decreases obj, jumps, options, 0nat,
{
    let ghost here = text::views(path@);
    let mut last = py_to_baml_value_inner(obj, &options[0], f, path, jumps);
    let mut i: usize = 1;
    #[verifier::loop_isolation(false)]
    while i < options.len() && last.is_err()
        invariant
            1 <= i <= options@.len(),
            text::views(path@) == here,
            outcome(last) == first_converted(
                *obj,
                options@,
                i as nat,
                *f,
                here,
                jumps as nat,
            ),
        decreases options@.len() - i,
    {
        last = py_to_baml_value_inner(obj, &options[i], f, path, jumps);
        i += 1;
    }
    proof {
        if i < options@.len() {
            lemma_fits(*obj, options@, i as nat, options@.len(), *f, here, jumps as nat);
        }
    }
    last
}

proof fn lemma_fits(
    obj: PyObject,
    options: Seq<TypeIr>,
    a: nat,
    b: nat,
    f: OutputFormat,
    path: Seq<Seq<char>>,
    jumps: nat,
)
    requires
        1 <= a <= b <= options.len(),
        first_converted(obj, options, a, f, path, jumps) is Ok,
    ensures
        first_converted(obj, options, b, f, path, jumps) == first_converted(
            obj,
            options,
            a,
            f,
            path,
            jumps,
        ),
    decreases b,
{
    if a < b {
        lemma_fits(obj, options, a, (b - 1) as nat, f, path, jumps);
    }
}

/// An object as a value of a type. The path is the same afterwards, whatever came out.
pub fn py_to_baml_value_inner(
    obj: &PyObject,
    t: &TypeIr,
    f: &OutputFormat,
    path: &mut Vec<String>,
    jumps: usize,
) -> (r: Result<BamlValue, BamlParseError>)
    ensures
        outcome(r) == converted(*obj, *t, *f, text::views(old(path)@), jumps as nat),
        text::views(final(path)@) == text::views(old(path)@),
    decreases obj, jumps, t, 0nat,
{
    match t {
        TypeIr::Alias { name } => {
            if jumps > 0 {
                match f.find_alias(name.as_str()) {
                    Some(next) => {
                        return py_to_baml_value_inner(obj, next, f, path, jumps - 1);
                    },
                    None => {},
                }
            }
        },
        _ => {},
    }
    if !is_string_target(t) && obj.kind == PyKind::Text {
        match &obj.text {
            Err(e) => {
                return text_error(e);
            },
            Ok(_) => {},
        }
        match object_in_text(obj) {
            Some(inner) => {
                return py_to_baml_value_inner(inner, t, f, path, f.aliases.len());
            },
            None => {},
        }
    }
    match t {
        TypeIr::Primitive(p) => convert_primitive(obj, *p, t, f, path),
        TypeIr::Enum { name } => convert_enum(obj, name, t, f, path),
        TypeIr::Literal { value, .. } => convert_literal(obj, value, t, f, path),
        TypeIr::Class { name, .. } => {
            if obj.kind != PyKind::Dict {
                lenient_or_error(obj, t, path)
            } else {
                let i = find_class(f, name.as_str());
                if i >= f.classes.len() {
                    let mut message = "missing class definition for ".to_owned();
                    message.append(name.as_str());
                    Err(BamlParseError::Jsonish(message))
                } else {
                    convert_fields(&obj.entries, name, &f.classes[i].fields, f, path)
                }
            }
        },
        TypeIr::List(item) => {
            if obj.kind == PyKind::List || obj.kind == PyKind::Tuple {
                convert_items(&obj.items, item, f, path)
            } else {
                lenient_or_error(obj, t, path)
            }
        },
        TypeIr::MapOf(key, value) => {
            if !is_string_target(key) {
                let got = types::plain_type_label(key);
                Err(
                    BamlParseError::Convert(
                        BamlConvertError {
                            path: text::clone_strings(path),
                            expected: "string".to_owned(),
                            got,
                            message: "map keys must be strings".to_owned(),
                        },
                    ),
                )
            } else if obj.kind != PyKind::Dict {
                lenient_or_error(obj, t, path)
            } else {
                let key_name = types::plain_type_label(key);
                convert_entries(&obj.entries, key_name.as_str(), value, f, path)
            }
        },
        TypeIr::Tuple { items, .. } => {
            if (obj.kind == PyKind::List || obj.kind == PyKind::Tuple) && obj.items.len()
                == items.len() {
                convert_pairs(&obj.items, items, f, path)
            } else {
                refuse(obj, t, path)
            }
        },
        TypeIr::Top { .. } => py_any_to_baml_value_untyped(obj),
        TypeIr::Arrow { .. } => refuse(obj, t, path),
        TypeIr::Union { options, nullable } => {
            if options.len() == 0 {
                if obj.kind == PyKind::Null {
                    Ok(BamlValue::Null)
                } else {
                    refuse(obj, t, path)
                }
            } else if *nullable && options.len() == 1 {
                if obj.kind == PyKind::Null {
                    Ok(BamlValue::Null)
                } else {
                    py_to_baml_value_inner(obj, &options[0], f, path, jumps)
                }
            } else {
                convert_options(obj, options, f, path, jumps)
            }
        },
        TypeIr::Alias { name } => {
            let mut message = "missing recursive alias ".to_owned();
            message.append(name.as_str());
            Err(BamlParseError::Jsonish(message))
        },
    }
}

/// An object as a value of a type.
pub fn py_to_baml_value(obj: &PyObject, t: &TypeIr, f: &OutputFormat) -> (r: Result<
    BamlValue,
    BamlParseError,
>)
    ensures
        outcome(r) == converted(*obj, *t, *f, Seq::empty(), f.aliases@.len()),
{
    let mut path: Vec<String> = Vec::new();
    proof {
        assert(text::views(path@) =~= Seq::empty());
    }
    py_to_baml_value_inner(obj, t, f, &mut path, f.aliases.len())
}

/// What an error is said to be of a field: the field comes before the path.
pub open spec fn in_field(e: ParseErrorView, field: Seq<char>) -> ParseErrorView {
    match e {
        ParseErrorView::Convert { path, expected, got, message } => ParseErrorView::Convert {
            path: seq![field] + path,
            expected,
            got,
            message,
        },
        ParseErrorView::Jsonish(m) => ParseErrorView::Convert {
            path: seq![field],
            expected: "schema"@,
            got: "python"@,
            message: m,
        },
        ParseErrorView::AssertsFailed(failed) => ParseErrorView::AssertsFailed(failed),
    }
}

fn add_field_context(err: BamlParseError, field: &str) -> (r: BamlParseError)
    ensures
        r@ == in_field(err@, field@),
{
    match err {
        BamlParseError::Convert(e) => {
            let mut path: Vec<String> = Vec::new();
            text::push_line(&mut path, field.to_owned());
            text::push_lines(&mut path, e.path);
            proof {
                assert(text::views(path@) =~= seq![field@] + text::views(e.path@));
            }
            BamlParseError::Convert(
                BamlConvertError {
                    path,
                    expected: e.expected,
                    got: e.got,
                    message: e.message,
                },
            )
        },
        BamlParseError::Jsonish(m) => {
            let mut path: Vec<String> = Vec::new();
            text::push_line(&mut path, field.to_owned());
            proof {
                assert(text::views(path@) =~= seq![field@]);
            }
            BamlParseError::Convert(
                BamlConvertError {
                    path,
                    expected: "schema".to_owned(),
                    got: "python".to_owned(),
                    message: m,
                },
            )
        },
        BamlParseError::ConstraintAssertsFailed { failed } =>
            BamlParseError::ConstraintAssertsFailed { failed },
    }
}

/// The name of the class that the output is, behind at most `jumps` aliases.
pub open spec fn output_class(t: TypeIr, f: OutputFormat, jumps: nat) -> Option<Seq<char>>
    decreases jumps,
{
    match t {
        TypeIr::Class { name, .. } => Some(name@),
        TypeIr::Alias { name } => {
            let i = f.alias_index(name@, 0);
            if 0 <= i < f.aliases@.len() && jumps > 0 {
                output_class(f.aliases@[i].1, f, (jumps - 1) as nat)
            } else {
                None
            }
        },
        _ => None,
    }
}

fn output_class_name(f: &OutputFormat) -> (r: Option<String>)
    ensures
        text::opt_view(r) == output_class(f.target, *f, f.aliases@.len()),
{
    let mut current = &f.target;
    let mut jumps: usize = f.aliases.len();
    while jumps > 0
        invariant
            output_class(*current, *f, jumps as nat) == output_class(
                f.target,
                *f,
                f.aliases@.len(),
            ),
        decreases jumps,
    {
        match current {
            TypeIr::Class { name, .. } => {
                return Some(name.clone());
            },
            TypeIr::Alias { name } => match f.find_alias(name.as_str()) {
                Some(next) => {
                    current = next;
                },
                None => {
                    return None;
                },
            },
            _ => {
                return None;
            },
        }
        jumps -= 1;
    }
    match current {
        TypeIr::Class { name, .. } => Some(name.clone()),
        _ => None,
    }
}

/// The first `n` output fields out of keyword arguments.
pub open spec fn output_fields(
    fields: Seq<FieldSchema>,
    kwargs: Seq<(PyObject, PyObject)>,
    f: OutputFormat,
    n: nat,
) -> Result<Seq<(Seq<char>, BamlView)>, ParseErrorView>
    decreases n,
{
    if n == 0 || n > fields.len() {
        Ok(Seq::empty())
    } else {
        match output_fields(fields, kwargs, f, (n - 1) as nat) {
            Err(e) => Err(e),
            Ok(before) => {
                let field = fields[n - 1];
                let i = key_index(kwargs, field.lm_name@, 0);
                if !(0 <= i < kwargs.len()) {
                    Err(missing_field(Seq::empty(), field.lm_name@))
                } else {
                    match converted(
                        kwargs[i].1,
                        field.type_ir,
                        f,
                        Seq::empty(),
                        f.aliases@.len(),
                    ) {
                        Err(e) => Err(in_field(e, field.lm_name@)),
                        Ok(v) => Ok(values::with_field(before, field.rust_name@, v)),
                    }
                }
            },
        }
    }
}

/// Keyword arguments as an output: a class when the output is one, else a dictionary.
pub open spec fn output_of(
    fields: Seq<FieldSchema>,
    kwargs: Seq<(PyObject, PyObject)>,
    f: OutputFormat,
) -> Result<BamlView, ParseErrorView> {
    match output_fields(fields, kwargs, f, fields.len()) {
        Err(e) => Err(e),
        Ok(v) => match output_class(f.target, f, f.aliases@.len()) {
            Some(name) => Ok(BamlView::Class(name, v)),
            None => Ok(BamlView::Dict(v)),
        },
    }
}

proof fn lemma_output_error(
    fields: Seq<FieldSchema>,
    kwargs: Seq<(PyObject, PyObject)>,
    f: OutputFormat,
    a: nat,
    b: nat,
)
    requires
        a <= b <= fields.len(),
        output_fields(fields, kwargs, f, a) is Err,
    ensures
        output_fields(fields, kwargs, f, b) == output_fields(fields, kwargs, f, a),
    decreases b,
{
    if a < b {
        lemma_output_error(fields, kwargs, f, a, (b - 1) as nat);
    }
}

/// Keyword arguments as an output.
pub fn kwargs_to_baml_value(
    fields: &Vec<FieldSchema>,
    f: &OutputFormat,
    kwargs: &Vec<(PyObject, PyObject)>,
) -> (r: Result<BamlValue, BamlParseError>)
    ensures
        outcome(r) == output_of(fields@, kwargs@, *f),
{
    let mut out: Vec<(String, BamlValue)> = Vec::new();
    let none: Vec<String> = Vec::new();
    let mut i: usize = 0;
    proof {
        assert(values::fields_view(out@) =~= Seq::empty());
        assert(text::views(none@) =~= Seq::empty());
    }
    while i < fields.len()
        invariant
            i <= fields@.len(),
            text::views(none@) == Seq::<Seq<char>>::empty(),
            output_fields(fields@, kwargs@, *f, i as nat) == Ok::<
                Seq<(Seq<char>, BamlView)>,
                ParseErrorView,
            >(values::fields_view(out@)),
        decreases fields@.len() - i,
    {
        let ghost next = output_fields(fields@, kwargs@, *f, (i + 1) as nat);
        let field = &fields[i];
        let at = find_key(kwargs, field.lm_name.as_str());
        if at >= kwargs.len() {
            let e = missing_field_error(&none, field.lm_name.as_str());
            proof {
                assert(next == Err::<Seq<(Seq<char>, BamlView)>, ParseErrorView>(e@));
                lemma_output_error(fields@, kwargs@, *f, (i + 1) as nat, fields@.len());
            }
            return Err(e);
        }
        match py_to_baml_value(&kwargs[at].1, &field.type_ir, f) {
            Ok(v) => values::put_field(&mut out, field.rust_name.clone(), v),
            Err(e) => {
                let placed = add_field_context(e, field.lm_name.as_str());
                proof {
                    assert(next == Err::<Seq<(Seq<char>, BamlView)>, ParseErrorView>(placed@));
                    lemma_output_error(fields@, kwargs@, *f, (i + 1) as nat, fields@.len());
                }
                return Err(placed);
            },
        }
        i += 1;
    }
    match output_class_name(f) {
        Some(name) => {
            proof {
                values::lemma_class(name, out);
            }
            Ok(BamlValue::Class(name, out))
        },
        None => {
            proof {
                values::lemma_dict(out);
            }
            Ok(BamlValue::Dict(out))
        },
    }
}

/// A constraint after it was put to a value. `report` is what is said of it when it is one that
/// is reported.
#[derive(Debug)]
pub struct CheckOutcome {
    pub is_assert: bool,
    pub label: Option<String>,
    pub expression: String,
    pub ok: bool,
    pub report: Option<ResponseCheck>,
}

pub struct CheckView {
    pub name: Seq<char>,
    pub expression: Seq<char>,
    pub status: Seq<char>,
}

impl View for ResponseCheck {
    type V = CheckView;

    open spec fn view(&self) -> CheckView {
        CheckView { name: self.name@, expression: self.expression@, status: self.status@ }
    }
}

pub open spec fn check_views(checks: Seq<ResponseCheck>) -> Seq<CheckView> {
    Seq::new(checks.len(), |i: int| checks[i]@)
}

/// The hard constraints among the first `n` that do not hold.
pub open spec fn failed_asserts(results: Seq<CheckOutcome>, n: nat) -> Seq<CheckView>
    decreases n,
{
    if n == 0 || n > results.len() {
        Seq::empty()
    } else {
        let before = failed_asserts(results, (n - 1) as nat);
        let c = results[n - 1];
        if c.is_assert && !c.ok {
            before.push(
                CheckView {
                    name: text::or_text(c.label, "assert"@),
                    expression: c.expression@,
                    status: "failed"@,
                },
            )
        } else {
            before
        }
    }
}

/// What is reported of the first `n` constraints.
pub open spec fn reported(results: Seq<CheckOutcome>, n: nat) -> Seq<CheckView>
    decreases n,
{
    if n == 0 || n > results.len() {
        Seq::empty()
    } else {
        match results[n - 1].report {
            Some(c) => reported(results, (n - 1) as nat).push(c@),
            None => reported(results, (n - 1) as nat),
        }
    }
}

/// The hard constraints of the first `n` fields that do not hold.
pub open spec fn all_failed(results: Seq<Vec<CheckOutcome>>, n: nat) -> Seq<CheckView>
    decreases n,
{
    if n == 0 || n > results.len() {
        Seq::empty()
    } else {
        all_failed(results, (n - 1) as nat) + failed_asserts(
            results[n - 1]@,
            results[n - 1]@.len(),
        )
    }
}

/// What is reported of the constraints of the first `n` fields.
pub open spec fn all_reported(results: Seq<Vec<CheckOutcome>>, n: nat) -> Seq<CheckView>
    decreases n,
{
    if n == 0 || n > results.len() {
        Seq::empty()
    } else {
        all_reported(results, (n - 1) as nat) + reported(results[n - 1]@, results[n - 1]@.len())
    }
}

/// The first of the output fields that a value does not have.
pub open spec fn first_absent(
    fields: Seq<FieldSchema>,
    value: Seq<(Seq<char>, BamlView)>,
    from: int,
) -> int
    decreases fields.len() - from,
{
    if from >= fields.len() {
        fields.len() as int
    } else if values::field_index(value, fields[from].rust_name@, 0) < value.len() {
        first_absent(fields, value, from + 1)
    } else {
        from
    }
}

/// The fields of an output that is an object.
pub open spec fn object_fields(value: BamlView) -> Option<Seq<(Seq<char>, BamlView)>> {
    match value {
        BamlView::Class(_, fields) => Some(fields),
        BamlView::Dict(fields) => Some(fields),
        _ => None,
    }
}

fn push_failed(out: &mut Vec<ResponseCheck>, results: &Vec<CheckOutcome>)
    ensures
        check_views(final(out)@) == check_views(old(out)@) + failed_asserts(
            results@,
            results@.len(),
        ),
{
    let mut i: usize = 0;
    proof {
        assert(check_views(out@) =~= check_views(old(out)@) + failed_asserts(results@, 0));
    }
    while i < results.len()
        invariant
            i <= results@.len(),
            check_views(out@) == check_views(old(out)@) + failed_asserts(results@, i as nat),
        decreases results@.len() - i,
    {
        let c = &results[i];
        if c.is_assert && !c.ok {
            let name = match &c.label {
                Some(l) => l.clone(),
                None => "assert".to_owned(),
            };
            let ghost before = out@;
            let check = ResponseCheck {
                name,
                expression: c.expression.clone(),
                status: "failed".to_owned(),
            };
            let ghost shown = check@;
            out.push(check);
            proof {
                assert(check_views(out@) =~= check_views(before).push(shown));
            }
        }
        i += 1;
        proof {
            assert(check_views(out@) =~= check_views(old(out)@) + failed_asserts(
                results@,
                i as nat,
            ));
        }
    }
}

fn push_reported(out: &mut Vec<ResponseCheck>, results: &Vec<CheckOutcome>)
    ensures
        check_views(final(out)@) == check_views(old(out)@) + reported(results@, results@.len()),
{
    let mut i: usize = 0;
    proof {
        assert(check_views(out@) =~= check_views(old(out)@) + reported(results@, 0));
    }
    while i < results.len()
        invariant
            i <= results@.len(),
            check_views(out@) == check_views(old(out)@) + reported(results@, i as nat),
        decreases results@.len() - i,
    {
        match &results[i].report {
            Some(c) => {
                let ghost before = out@;
                out.push(c.clone());
                proof {
                    assert(check_views(out@) =~= check_views(before).push(c@));
                }
            },
            None => {},
        }
        i += 1;
        proof {
            assert(check_views(out@) =~= check_views(old(out)@) + reported(results@, i as nat));
        }
    }
}

/// What the constraints of an output come to. `results` holds those of each field, and `shown`
/// is the form of a value that is no object.
pub fn collect_checks_for_output(
    fields: &Vec<FieldSchema>,
    value: &BamlValue,
    shown: &str,
    results: &Vec<Vec<CheckOutcome>>,
) -> (r: Result<Vec<ResponseCheck>, BamlParseError>)
    requires
        results@.len() == fields@.len(),
    ensures
        match object_fields(value@) {
            None => r matches Err(e) && e@ == (ParseErrorView::Convert {
                path: Seq::empty(),
                expected: "object"@,
                got: shown@,
                message: "expected an object"@,
            }),
            Some(found) => {
                let absent = first_absent(fields@, found, 0);
                let failed = all_failed(results@, results@.len());
                if absent < fields@.len() {
                    r matches Err(e) && e@ == missing_field(
                        Seq::empty(),
                        fields@[absent].rust_name@,
                    )
                } else if failed.len() > 0 {
                    r matches Err(BamlParseError::ConstraintAssertsFailed { failed: f })
                        && check_views(f@) == failed
                } else {
                    r matches Ok(checks) && check_views(checks@) == all_reported(
                        results@,
                        results@.len(),
                    )
                }
            },
        },
{
    let none: Vec<String> = Vec::new();
    proof {
        assert(text::views(none@) =~= Seq::empty());
    }
    let found = match value {
        BamlValue::Class(name, found) => {
            proof {
                values::lemma_class(*name, *found);
            }
            found
        },
        BamlValue::Dict(found) => {
            proof {
                values::lemma_dict(*found);
            }
            found
        },
        _ => {
            return Err(
                BamlParseError::Convert(
                    BamlConvertError {
                        path: none,
                        expected: "object".to_owned(),
                        got: shown.to_owned(),
                        message: "expected an object".to_owned(),
                    },
                ),
            );
        },
    };
    let ghost view = values::fields_view(found@);
    let mut checks: Vec<ResponseCheck> = Vec::new();
    let mut failed: Vec<ResponseCheck> = Vec::new();
    let mut i: usize = 0;
    proof {
        assert(check_views(checks@) =~= all_reported(results@, 0));
        assert(check_views(failed@) =~= all_failed(results@, 0));
    }
    while i < fields.len()
        invariant
            i <= fields@.len(),
            results@.len() == fields@.len(),
            view == values::fields_view(found@),
            text::views(none@) == Seq::<Seq<char>>::empty(),
            first_absent(fields@, view, 0) == first_absent(fields@, view, i as int),
            check_views(checks@) == all_reported(results@, i as nat),
            check_views(failed@) == all_failed(results@, i as nat),
            object_fields(value@) == Some(view),
        decreases fields@.len() - i,
    {
        let at = values::find_field(found, fields[i].rust_name.as_str());
        if at >= found.len() {
            return Err(missing_field_error(&none, fields[i].rust_name.as_str()));
        }
        push_failed(&mut failed, &results[i]);
        push_reported(&mut checks, &results[i]);
        i += 1;
    }
    proof {
        assert(check_views(failed@).len() == failed@.len());
    }
    if failed.len() > 0 {
        return Err(BamlParseError::ConstraintAssertsFailed { failed });
    }
    Ok(checks)
}

/// Where the plain form of an object comes from.
#[derive(Clone, Copy, Debug, PartialEq, Eq, Structural)]
pub enum PlainForm {
    Itself,
    ModelDump,
    DictMethod,
    AsDict,
    Dataclass,
    Attrs,
    Attributes,
}

/// What an object offers to give its plain form.
#[derive(Clone, Copy, Debug, PartialEq, Eq, Structural)]
pub struct PlainOffers {
    pub model_dump: bool,
    pub dict_method: bool,
    pub as_dict: bool,
    pub dataclass: bool,
    pub attrs: bool,
    pub attributes: bool,
}

/// How an object is brought to its plain form: containers are left alone, and of what others
/// offer the first in this order is taken.
pub fn normalize_python_object(kind: PyKind, offers: PlainOffers) -> (r: PlainForm)
    ensures
        r == (if kind == PyKind::Dict || kind == PyKind::List {
            PlainForm::Itself
        } else if offers.model_dump {
            PlainForm::ModelDump
        } else if offers.dict_method {
            PlainForm::DictMethod
        } else if offers.as_dict {
            PlainForm::AsDict
        } else if offers.dataclass {
            PlainForm::Dataclass
        } else if offers.attrs {
            PlainForm::Attrs
        } else if offers.attributes {
            PlainForm::Attributes
        } else {
            PlainForm::Itself
        }),
{
    if kind == PyKind::Dict || kind == PyKind::List {
        PlainForm::Itself
    } else if offers.model_dump {
        PlainForm::ModelDump
    } else if offers.dict_method {
        PlainForm::DictMethod
    } else if offers.as_dict {
        PlainForm::AsDict
    } else if offers.dataclass {
        PlainForm::Dataclass
    } else if offers.attrs {
        PlainForm::Attrs
    } else if offers.attributes {
        PlainForm::Attributes
    } else {
        PlainForm::Itself
    }
}

/// The output fields among the first `n` that no keyword argument is for.
pub open spec fn missing_outputs(
    fields: Seq<FieldSchema>,
    kwargs: Seq<(PyObject, PyObject)>,
    n: nat,
) -> Seq<Seq<char>>
    decreases n,
{
    if n == 0 || n > fields.len() {
        Seq::empty()
    } else if key_index(kwargs, fields[n - 1].lm_name@, 0) < kwargs.len() {
        missing_outputs(fields, kwargs, (n - 1) as nat)
    } else {
        missing_outputs(fields, kwargs, (n - 1) as nat).push(fields[n - 1].lm_name@)
    }
}

/// The output fields that no keyword argument is for, in their order.
pub fn missing_output_fields(
    fields: &Vec<FieldSchema>,
    kwargs: &Vec<(PyObject, PyObject)>,
) -> (r: Vec<String>)
    ensures
        text::views(r@) == missing_outputs(fields@, kwargs@, fields@.len()),
{
    let mut out: Vec<String> = Vec::new();
    let mut i: usize = 0;
    proof {
        assert(text::views(out@) =~= Seq::empty());
    }
    while i < fields.len()
        invariant
            i <= fields@.len(),
            text::views(out@) == missing_outputs(fields@, kwargs@, i as nat),
        decreases fields@.len() - i,
    {
        let at = find_key(kwargs, fields[i].lm_name.as_str());
        if at >= kwargs.len() {
            text::push_line(&mut out, fields[i].lm_name.clone());
        }
        i += 1;
    }
    out
}

} // verus!
