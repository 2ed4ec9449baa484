//! What holds of the values that come from an interpreter, and of what is shown of its objects.

use vstd::prelude::*;

use crate::modules::rlm::json_data::{DataView, JsonData};
use crate::modules::rlm::py_bridge;
use crate::modules::rlm::py_bridge::{
    BamlParseError, CheckOutcome, ParseErrorView, PyObject, ResponseCheck,
};
use crate::modules::rlm::py_methods;
use crate::modules::rlm::py_methods::RawMethod;
use crate::modules::rlm::py_schema;
use crate::modules::rlm::py_walk::{PyGraph, Survey};
use crate::modules::rlm::runtime::MethodSignature;
use crate::modules::rlm::types::{FieldSchema, OutputFormat, Primitive, TypeIr};
use crate::modules::rlm::values;
use crate::modules::rlm::values::{BamlValue, BamlView, PyKind};
use crate::text;

verus! {

/// A text comes over as it is, a number as that number and a truth value as that; a truth value
/// is no number, and nothing is taken for a text, a number or a truth value that is none.
pub proof fn plain_values_come_over(
    obj: &PyObject,
    f: &OutputFormat,
    p: Primitive,
    r: Result<BamlValue, BamlParseError>,
)
    requires
        call_ensures(py_bridge::py_to_baml_value, (obj, &TypeIr::Primitive(p), f), r),
        obj.kind != PyKind::Text || p == Primitive::Text,
    ensures
        p == Primitive::Text ==> (r is Ok <==> obj.text is Ok) && (r is Ok ==> r->Ok_0@
            == BamlView::Text(obj.text->Ok_0@)),
        p == Primitive::Int ==> (r is Ok <==> obj.kind != PyKind::Bool && obj.integer is Ok) && (
        r is Ok ==> r->Ok_0@ == BamlView::Int(obj.integer->Ok_0)),
        p == Primitive::Float ==> (r is Ok <==> obj.kind != PyKind::Bool && obj.fraction is Ok) && (
        r is Ok ==> r->Ok_0@ == BamlView::Float(obj.fraction->Ok_0)),
        p == Primitive::Bool ==> (r is Ok <==> obj.truth is Ok) && (r is Ok ==> r->Ok_0@
            == BamlView::Bool(obj.truth->Ok_0)),
        p == Primitive::Null ==> (r is Ok <==> obj.kind == PyKind::Null) && (r is Ok ==> r->Ok_0@
            == BamlView::Null),
{
    assert(py_bridge::outcome(r) == py_bridge::converted(
        *obj,
        TypeIr::Primitive(p),
        *f,
        Seq::empty(),
        f.aliases@.len(),
    ));
}

/// Where nothing may be there, nothing is taken for nothing, and everything else as the type that
/// it may be.
pub proof fn optional_values_may_be_absent(
    obj: &PyObject,
    f: &OutputFormat,
    options: Vec<TypeIr>,
    r: Result<BamlValue, BamlParseError>,
    inner: Result<BamlValue, BamlParseError>,
)
    requires
        options@.len() == 1,
        call_ensures(
            py_bridge::py_to_baml_value,
            (obj, &TypeIr::Union { options, nullable: true }, f),
            r,
        ),
        call_ensures(py_bridge::py_to_baml_value, (obj, &options@[0], f), inner),
        obj.kind != PyKind::Text,
    ensures
        obj.kind == PyKind::Null ==> r is Ok && r->Ok_0@ == BamlView::Null,
        obj.kind != PyKind::Null ==> py_bridge::outcome(r) == py_bridge::outcome(inner),
{
}

/// Of an enum only its own values are taken, by either of their names.
pub proof fn only_values_of_an_enum_are_taken(
    obj: &PyObject,
    f: &OutputFormat,
    name: String,
    r: Result<BamlValue, BamlParseError>,
    i: int,
)
    requires
        call_ensures(py_bridge::py_to_baml_value, (obj, &TypeIr::Enum { name }, f), r),
        obj.kind == PyKind::Text,
        obj.text is Ok,
        !py_bridge::holds_object(*obj),
        f.enum_index(name@, 0) == i,
        0 <= i < f.enums@.len(),
    ensures
        r is Ok <==> exists|k: int|
            0 <= k < f.enums@[i].values@.len() && ((#[trigger] f.enums@[i].values@[k]).real@
                == obj.text->Ok_0@ || f.enums@[i].values@[k].rendered@ == obj.text->Ok_0@),
        r is Ok ==> r->Ok_0@ == BamlView::Enum(name@, obj.text->Ok_0@),
{
    assert(py_bridge::outcome(r) == py_bridge::converted(
        *obj,
        TypeIr::Enum { name },
        *f,
        Seq::empty(),
        f.aliases@.len(),
    ));
}

proof fn lemma_text(obj: PyObject, f: OutputFormat, path: Seq<Seq<char>>)
    requires
        obj.text is Ok,
    ensures
        py_bridge::converted(
            obj,
            TypeIr::Primitive(Primitive::Text),
            f,
            path,
            f.aliases@.len(),
        ) == Ok::<BamlView, ParseErrorView>(BamlView::Text(obj.text->Ok_0@)),
{
}

proof fn lemma_text_items(
    items: Seq<PyObject>,
    n: nat,
    f: OutputFormat,
    path: Seq<Seq<char>>,
)
    requires
        n <= items.len(),
        forall|i: int| 0 <= i < items.len() ==> (#[trigger] items[i]).text is Ok,
    ensures
        py_bridge::converted_items(items, n, TypeIr::Primitive(Primitive::Text), f, path) is Ok,
        py_bridge::converted_items(
            items,
            n,
            TypeIr::Primitive(Primitive::Text),
            f,
            path,
        )->Ok_0.len() == n,
        forall|i: int|
            0 <= i < n ==> #[trigger] py_bridge::converted_items(
                items,
                n,
                TypeIr::Primitive(Primitive::Text),
                f,
                path,
            )->Ok_0[i] == BamlView::Text(items[i].text->Ok_0@),
    decreases n,
{
    if n > 0 {
        lemma_text_items(items, (n - 1) as nat, f, path);
        assert(items[n - 1].text is Ok);
        lemma_text(items[n - 1], f, path.push(text::decimal((n - 1) as nat)));
    }
}

/// A list keeps each of its items, in order.
pub proof fn lists_keep_their_items(
    obj: &PyObject,
    f: &OutputFormat,
    r: Result<BamlValue, BamlParseError>,
    i: int,
)
    requires
        call_ensures(
            py_bridge::py_to_baml_value,
            (obj, &TypeIr::List(Box::new(TypeIr::Primitive(Primitive::Text))), f),
            r,
        ),
        obj.kind == PyKind::List,
        forall|i: int| 0 <= i < obj.items@.len() ==> (#[trigger] obj.items@[i]).text is Ok,
        0 <= i < obj.items@.len(),
    ensures
        r is Ok,
        r->Ok_0@ is List,
        r->Ok_0@->List_0.len() == obj.items@.len(),
        r->Ok_0@->List_0[i] == BamlView::Text(obj.items@[i].text->Ok_0@),
{
    lemma_text_items(obj.items@, obj.items@.len(), *f, Seq::empty());
    assert(py_bridge::outcome(r) == py_bridge::converted(
        *obj,
        TypeIr::List(Box::new(TypeIr::Primitive(Primitive::Text))),
        *f,
        Seq::empty(),
        f.aliases@.len(),
    ));
}

proof fn lemma_with_field(
    fields: Seq<(Seq<char>, BamlView)>,
    name: Seq<char>,
    value: BamlView,
    m: (Seq<char>, BamlView),
)
    ensures
        values::with_field(fields, name, value).contains((name, value)),
        fields.contains(m) && m.0 != name ==> values::with_field(fields, name, value).contains(m),
{
    lemma_field_index(fields, name, 0);
    let all = values::with_field(fields, name, value);
    let at = values::field_index(fields, name, 0);
    assert(all[at] == (name, value));
    if fields.contains(m) && m.0 != name {
        let i = fields.index_of(m);
        assert(all[i] == m);
    }
}

proof fn lemma_field_index(fields: Seq<(Seq<char>, BamlView)>, name: Seq<char>, from: int)
    requires
        0 <= from <= fields.len(),
    ensures
        from <= values::field_index(fields, name, from) <= fields.len(),
        values::field_index(fields, name, from) < fields.len() ==> fields[values::field_index(
            fields,
            name,
            from,
        )].0 == name,
    decreases fields.len() - from,
{
    if from < fields.len() && fields[from].0 != name {
        lemma_field_index(fields, name, from + 1);
    }
}

proof fn lemma_output_fields(
    fields: Seq<FieldSchema>,
    kwargs: Seq<(PyObject, PyObject)>,
    f: OutputFormat,
    n: nat,
    i: int,
)
    requires
        0 <= i < n <= fields.len(),
        py_bridge::output_fields(fields, kwargs, f, n) is Ok,
        forall|j: int|
            0 <= j < fields.len() && j != i ==> (#[trigger] fields[j]).rust_name@
                != fields[i].rust_name@,
    ensures
        ({
            let e = py_bridge::key_index(kwargs, fields[i].lm_name@, 0);
            &&& 0 <= e < kwargs.len()
            &&& py_bridge::converted(
                kwargs[e].1,
                fields[i].type_ir,
                f,
                Seq::empty(),
                f.aliases@.len(),
            ) is Ok
            &&& py_bridge::output_fields(fields, kwargs, f, n)->Ok_0.contains(
                (
                    fields[i].rust_name@,
                    py_bridge::converted(
                        kwargs[e].1,
                        fields[i].type_ir,
                        f,
                        Seq::empty(),
                        f.aliases@.len(),
                    )->Ok_0,
                ),
            )
        }),
    decreases n,
{
    let before = py_bridge::output_fields(fields, kwargs, f, (n - 1) as nat)->Ok_0;
    let e = py_bridge::key_index(kwargs, fields[n - 1].lm_name@, 0);
    let v = py_bridge::converted(
        kwargs[e].1,
        fields[n - 1].type_ir,
        f,
        Seq::empty(),
        f.aliases@.len(),
    )->Ok_0;
    if i == n - 1 {
        lemma_with_field(before, fields[i].rust_name@, v, (fields[i].rust_name@, v));
    } else {
        lemma_output_fields(fields, kwargs, f, (n - 1) as nat, i);
        let x = py_bridge::key_index(kwargs, fields[i].lm_name@, 0);
        let w = py_bridge::converted(
            kwargs[x].1,
            fields[i].type_ir,
            f,
            Seq::empty(),
            f.aliases@.len(),
        )->Ok_0;
        assert(fields[n - 1].rust_name@ != fields[i].rust_name@);
        lemma_with_field(before, fields[n - 1].rust_name@, v, (fields[i].rust_name@, w));
    }
}

/// An output holds each of its fields under its name in the code, as what was handed in for it
/// comes to as a value of its type.
pub proof fn outputs_hold_what_was_handed_in(
    fields: &Vec<FieldSchema>,
    f: &OutputFormat,
    kwargs: &Vec<(PyObject, PyObject)>,
    output: BamlValue,
    i: int,
    e: int,
    value: Result<BamlValue, BamlParseError>,
)
    requires
        call_ensures(
            py_bridge::kwargs_to_baml_value,
            (fields, f, kwargs),
            Ok::<BamlValue, BamlParseError>(output),
        ),
        0 <= i < fields@.len(),
        forall|j: int|
            0 <= j < fields@.len() && j != i ==> (#[trigger] fields@[j]).rust_name@
                != fields@[i].rust_name@,
        0 <= e < kwargs@.len(),
        kwargs@[e].0.text is Ok,
        kwargs@[e].0.text->Ok_0@ == fields@[i].lm_name@,
        forall|j: int|
            0 <= j < e ==> !((#[trigger] kwargs@[j]).0.text is Ok && kwargs@[j].0.text->Ok_0@
                == fields@[i].lm_name@),
        call_ensures(
            py_bridge::py_to_baml_value,
            (&kwargs@[e].1, &fields@[i].type_ir, f),
            value,
        ),
    ensures
        value is Ok,
        output@ is Class || output@ is Dict,
        output@ is Class ==> output@->Class_1.contains((fields@[i].rust_name@, value->Ok_0@)),
        output@ is Dict ==> output@->Dict_0.contains((fields@[i].rust_name@, value->Ok_0@)),
{
    lemma_key_at(kwargs@, fields@[i].lm_name@, 0, e);
    assert(py_bridge::outcome(Ok::<BamlValue, BamlParseError>(output)) == py_bridge::output_of(
        fields@,
        kwargs@,
        *f,
    ));
    lemma_output_fields(fields@, kwargs@, *f, fields@.len(), i);
    assert(py_bridge::outcome(value) == py_bridge::converted(
        kwargs@[e].1,
        fields@[i].type_ir,
        *f,
        Seq::empty(),
        f.aliases@.len(),
    ));
}

proof fn lemma_key_at(kwargs: Seq<(PyObject, PyObject)>, name: Seq<char>, from: int, e: int)
    requires
        0 <= from <= e < kwargs.len(),
        kwargs[e].0.text is Ok,
        kwargs[e].0.text->Ok_0@ == name,
        forall|j: int|
            from <= j < e ==> !((#[trigger] kwargs[j]).0.text is Ok && kwargs[j].0.text->Ok_0@
                == name),
    ensures
        py_bridge::key_index(kwargs, name, from) == e,
    decreases e - from,
{
    if from < e {
        assert(!(kwargs[from].0.text is Ok && kwargs[from].0.text->Ok_0@ == name));
        lemma_key_at(kwargs, name, from + 1, e);
    }
}

proof fn lemma_failed(results: Seq<CheckOutcome>, n: nat, i: int)
    requires
        n <= results.len(),
    ensures
        0 <= i < n && results[i].is_assert && !results[i].ok ==> py_bridge::failed_asserts(
            results,
            n,
        ).len() > 0,
        (forall|k: int| 0 <= k < n ==> !((#[trigger] results[k]).is_assert && !results[k].ok))
            ==> py_bridge::failed_asserts(results, n).len() == 0,
    decreases n,
{
    if n > 0 {
        lemma_failed(results, (n - 1) as nat, i);
        assert(results[n - 1] == results[n - 1]);
    }
}

proof fn lemma_all_failed(results: Seq<Vec<CheckOutcome>>, n: nat, a: int, b: int)
    requires
        n <= results.len(),
    ensures
        0 <= a < n && 0 <= b < results[a]@.len() && results[a]@[b].is_assert && !results[a]@[b].ok
            ==> py_bridge::all_failed(results, n).len() > 0,
        (forall|x: int, y: int|
            0 <= x < n && 0 <= y < results[x]@.len() ==> !((
            #[trigger] results[x]@[y]).is_assert && !results[x]@[y].ok)) ==> py_bridge::all_failed(
            results,
            n,
        ).len() == 0,
    decreases n,
{
    if n > 0 {
        lemma_all_failed(results, (n - 1) as nat, a, b);
        let last = results[n - 1]@;
        lemma_failed(last, last.len(), b);
    }
}

/// An output is accepted only where every hard constraint of it holds; one that fails refuses
/// it.
pub proof fn hard_constraints_have_to_hold(
    fields: &Vec<FieldSchema>,
    value: &BamlValue,
    shown: &str,
    results: &Vec<Vec<CheckOutcome>>,
    r: Result<Vec<ResponseCheck>, BamlParseError>,
    a: int,
    b: int,
)
    requires
        results@.len() == fields@.len(),
        call_ensures(
            py_bridge::collect_checks_for_output,
            (fields, value, shown, results),
            r,
        ),
    ensures
        r is Ok && 0 <= a < results@.len() && 0 <= b < results@[a]@.len()
            && results@[a]@[b].is_assert ==> results@[a]@[b].ok,
        r is Ok ==> value@ is Class || value@ is Dict,
{
    lemma_all_failed(results@, results@.len(), a, b);
}

proof fn lemma_key(kwargs: Seq<(PyObject, PyObject)>, name: Seq<char>, from: int)
    requires
        0 <= from <= kwargs.len(),
    ensures
        py_bridge::key_index(kwargs, name, from) < kwargs.len() <==> exists|k: int|
            from <= k < kwargs.len() && (#[trigger] kwargs[k]).0.text is Ok
                && kwargs[k].0.text->Ok_0@ == name,
    decreases kwargs.len() - from,
{
    if from < kwargs.len() {
        lemma_key(kwargs, name, from + 1);
        if !(kwargs[from].0.text is Ok && kwargs[from].0.text->Ok_0@ == name) && exists|k: int|
            from <= k < kwargs.len() && (#[trigger] kwargs[k]).0.text is Ok
                && kwargs[k].0.text->Ok_0@ == name {
            let k = choose|k: int|
                from <= k < kwargs.len() && (#[trigger] kwargs[k]).0.text is Ok
                    && kwargs[k].0.text->Ok_0@ == name;
            assert(from + 1 <= k);
        }
        assert(kwargs[from] == kwargs[from]);
    }
}

proof fn lemma_missing_outputs(
    fields: Seq<FieldSchema>,
    kwargs: Seq<(PyObject, PyObject)>,
    n: nat,
    name: Seq<char>,
)
    requires
        n <= fields.len(),
    ensures
        py_bridge::missing_outputs(fields, kwargs, n).contains(name) <==> (exists|i: int|
            0 <= i < n && (#[trigger] fields[i]).lm_name@ == name) && !(py_bridge::key_index(
            kwargs,
            name,
            0,
        ) < kwargs.len()),
    decreases n,
{
    if n > 0 {
        lemma_missing_outputs(fields, kwargs, (n - 1) as nat, name);
        let before = py_bridge::missing_outputs(fields, kwargs, (n - 1) as nat);
        let now = py_bridge::missing_outputs(fields, kwargs, n);
        if before.contains(name) {
            let k = before.index_of(name);
            assert(now[k] == name);
        }
        if now.contains(name) && !before.contains(name) {
            let k = now.index_of(name);
            assert(k == before.len());
            assert(fields[n - 1].lm_name@ == name);
        }
        if fields[n - 1].lm_name@ == name && !(py_bridge::key_index(kwargs, name, 0)
            < kwargs.len()) {
            assert(now[before.len() as int] == name);
        }
    }
}

/// An output field is missing exactly where no keyword argument has its name.
pub proof fn fields_without_an_argument_are_missing(
    fields: &Vec<FieldSchema>,
    kwargs: &Vec<(PyObject, PyObject)>,
    r: Vec<String>,
    i: int,
)
    requires
        call_ensures(py_bridge::missing_output_fields, (fields, kwargs), r),
        0 <= i < fields@.len(),
    ensures
        text::views(r@).contains(fields@[i].lm_name@) <==> !(exists|k: int|
            0 <= k < kwargs@.len() && (#[trigger] kwargs@[k]).0.text is Ok
                && kwargs@[k].0.text->Ok_0@ == fields@[i].lm_name@),
{
    lemma_key(kwargs@, fields@[i].lm_name@, 0);
    lemma_missing_outputs(fields@, kwargs@, fields@.len(), fields@[i].lm_name@);
    assert(fields@[i].lm_name@ == fields@[i].lm_name@);
}

proof fn lemma_reserved(g: PyGraph, inputs: Seq<(String, Option<usize>)>, from: int, i: int)
    requires
        0 <= from <= i < inputs.len(),
        py_schema::is_reserved(inputs[i].0@),
    ensures
        py_schema::setup_started(g, inputs, from) is Err,
    decreases i - from,
{
    if from < i && !py_schema::is_reserved(inputs[from].0@) {
        lemma_reserved(g, inputs, from + 1, i);
    }
}

/// An input cannot take the name of a call that the runtime binds itself.
pub proof fn reserved_names_are_refused(
    g: &PyGraph,
    inputs: &Vec<(String, Option<usize>)>,
    r: Result<Survey, String>,
    i: int,
)
    requires
        call_ensures(py_schema::begin_interpreter_setup, (g, inputs), r),
        0 <= i < inputs@.len(),
        inputs@[i].0@ == "SUBMIT"@ || inputs@[i].0@ == "llm_query"@ || inputs@[i].0@
            == "llm_query_batched"@,
    ensures
        r is Err,
{
    lemma_reserved(*g, inputs@, 0, i);
}

proof fn lemma_given(inputs: Seq<(String, Option<usize>)>, n: nat, i: int)
    requires
        0 <= i < n <= inputs.len(),
        inputs[i].1 is Some,
    ensures
        py_schema::given_names(inputs, n).contains(inputs[i].0@),
    decreases n,
{
    let before = py_schema::given_names(inputs, (n - 1) as nat);
    let now = py_schema::given_names(inputs, n);
    if i == n - 1 {
        assert(now[before.len() as int] == inputs[i].0@);
    } else {
        lemma_given(inputs, (n - 1) as nat, i);
        let k = before.index_of(inputs[i].0@);
        assert(now[k] == inputs[i].0@);
    }
}

/// Every input that has a value is bound by its name, and so is the call that hands in the
/// output; queries only where there is a model for them.
pub proof fn inputs_are_bound_by_name(
    inputs: &Vec<(String, Option<usize>)>,
    with_tools: bool,
    r: Vec<String>,
    i: int,
)
    requires
        call_ensures(py_schema::global_names, (inputs, with_tools), r),
    ensures
        0 <= i < inputs@.len() && inputs@[i].1 is Some ==> text::views(r@).contains(
            inputs@[i].0@,
        ),
        r@.len() > 0,
        r@.last()@ == "SUBMIT"@,
        with_tools ==> text::views(r@).contains("llm_query"@) && text::views(r@).contains(
            "llm_query_batched"@,
        ),
{
    let given = py_schema::given_names(inputs@, inputs@.len());
    let bound = py_schema::bound_names(with_tools);
    let all = text::views(r@);
    assert(all == given + bound);
    assert(all.len() == r@.len());
    assert(all.last() == bound.last());
    assert(all.last() == r@.last()@);
    if 0 <= i < inputs@.len() && inputs@[i].1 is Some {
        lemma_given(inputs@, inputs@.len(), i);
        let k = given.index_of(inputs@[i].0@);
        assert(all[k] == inputs@[i].0@);
    }
    if with_tools {
        let n = given.len() as int;
        assert(all[n] == "llm_query"@);
        assert(all[n + 1] == "llm_query_batched"@);
    }
}

proof fn lemma_insert_method(
    list: Seq<py_methods::MethodView>,
    m: py_methods::MethodView,
    x: py_methods::MethodView,
)
    ensures
        py_methods::insert_method(list, m).contains(m),
        list.contains(x) ==> py_methods::insert_method(list, m).contains(x),
    decreases list.len(),
{
    let all = py_methods::insert_method(list, m);
    if list.len() == 0 || !py_methods::before(m, list.last()) {
        assert(all[list.len() as int] == m);
        if list.contains(x) {
            let k = list.index_of(x);
            assert(all[k] == x);
        }
    } else {
        let front = list.drop_last();
        lemma_insert_method(front, m, x);
        let head = py_methods::insert_method(front, m);
        let k = head.index_of(m);
        assert(all[k] == m);
        if list.contains(x) {
            let j = list.index_of(x);
            if j < front.len() {
                assert(front[j] == x);
                assert(front.contains(x));
                let h = head.index_of(x);
                assert(all[h] == x);
            } else {
                assert(all[head.len() as int] == x);
            }
        }
    }
}

proof fn lemma_in_order(members: Seq<RawMethod>, n: nat, i: int)
    requires
        0 <= i < n <= members.len(),
        py_methods::is_listed(members[i].name@),
    ensures
        py_methods::in_order(members, n).contains(py_methods::listed(members[i])),
    decreases n,
{
    let before = py_methods::in_order(members, (n - 1) as nat);
    let mine = py_methods::listed(members[i]);
    if i == n - 1 {
        lemma_insert_method(before, mine, mine);
    } else {
        lemma_in_order(members, (n - 1) as nat, i);
        lemma_insert_method(before, py_methods::listed(members[n - 1]), mine);
    }
}

proof fn lemma_without_repeats(list: Seq<py_methods::MethodView>, n: nat, i: int)
    requires
        0 <= i < n <= list.len(),
    ensures
        exists|k: int|
            0 <= k < py_methods::without_repeats(list, n).len() && py_methods::same_method(
                #[trigger] py_methods::without_repeats(list, n)[k],
                list[i],
            ),
    decreases n,
{
    let kept = py_methods::without_repeats(list, (n - 1) as nat);
    let now = py_methods::without_repeats(list, n);
    if i < n - 1 {
        lemma_without_repeats(list, (n - 1) as nat, i);
        let k = choose|k: int|
            0 <= k < kept.len() && py_methods::same_method(#[trigger] kept[k], list[i]);
        assert(now[k] == kept[k]);
    } else if kept.len() > 0 && py_methods::same_method(kept.last(), list[n - 1]) {
        assert(py_methods::same_method(now[kept.len() - 1], list[i]));
    } else {
        assert(py_methods::same_method(now[kept.len() as int], list[i]));
    }
}

/// Every ordinary method of a class is shown, by its name.
pub proof fn ordinary_methods_are_shown(
    members: &Vec<RawMethod>,
    r: Vec<MethodSignature>,
    i: int,
)
    requires
        call_ensures(py_methods::collect_visible_methods, (members,), r),
        0 <= i < members@.len(),
        members@[i].name@.len() > 0,
        members@[i].name@[0] != '_',
    ensures
        exists|k: int| 0 <= k < r@.len() && (#[trigger] r@[k]).name@ == members@[i].name@,
{
    reveal_strlit("__");
    reveal_strlit("__baml__");
    let name = members@[i].name@;
    if text::has_prefix(name, "__"@) {
        assert(name.subrange(0, 2)[0] == name[0]);
        assert("__"@[0] == '_');
    }
    assert("__baml__"@[0] == '_');
    let all = py_methods::in_order(members@, members@.len());
    lemma_in_order(members@, members@.len(), i);
    let j = all.index_of(py_methods::listed(members@[i]));
    lemma_without_repeats(all, all.len(), j);
    let shown = py_methods::visible_methods(members@);
    let k = choose|k: int|
        0 <= k < shown.len() && py_methods::same_method(#[trigger] shown[k], all[j]);
    assert(py_methods::method_views(r@) == shown);
    assert(py_methods::method_views(r@).len() == r@.len());
    assert(py_methods::method_views(r@)[k] == r@[k]@);
    assert(r@[k]@.name == r@[k].name@);
}

/// A special method is shown only where it makes its object a container.
pub proof fn special_methods_are_left_out(
    members: &Vec<RawMethod>,
    r: Vec<MethodSignature>,
    k: int,
)
    requires
        call_ensures(py_methods::collect_visible_methods, (members,), r),
        0 <= k < r@.len(),
    ensures
        r@[k].name@ != "__baml__"@,
        text::has_prefix(r@[k].name@, "__"@) && text::has_suffix(r@[k].name@, "__"@)
            ==> r@[k].name@ == "__len__"@ || r@[k].name@ == "__iter__"@ || r@[k].name@
            == "__getitem__"@,
{
    let all = py_methods::in_order(members@, members@.len());
    lemma_all_listed(members@, members@.len());
    let shown = py_methods::visible_methods(members@);
    assert(py_methods::method_views(r@) == shown);
    assert(py_methods::method_views(r@)[k] == r@[k]@);
    lemma_kept_are_of(all, all.len(), k);
    assert(r@[k]@.name == r@[k].name@);
}

proof fn lemma_kept_are_of(list: Seq<py_methods::MethodView>, n: nat, k: int)
    requires
        n <= list.len(),
        0 <= k < py_methods::without_repeats(list, n).len(),
    ensures
        list.contains(py_methods::without_repeats(list, n)[k]),
    decreases n,
{
    let kept = py_methods::without_repeats(list, (n - 1) as nat);
    if k < kept.len() {
        lemma_kept_are_of(list, (n - 1) as nat, k);
        assert(py_methods::without_repeats(list, n)[k] == kept[k]);
    } else {
        assert(py_methods::without_repeats(list, n)[k] == list[n - 1]);
    }
}

proof fn lemma_all_listed(members: Seq<RawMethod>, n: nat)
    requires
        n <= members.len(),
    ensures
        forall|x: py_methods::MethodView| #[trigger]
            py_methods::in_order(members, n).contains(x) ==> py_methods::is_listed(x.name),
    decreases n,
{
    if n > 0 {
        lemma_all_listed(members, (n - 1) as nat);
        let before = py_methods::in_order(members, (n - 1) as nat);
        if py_methods::is_listed(members[n - 1].name@) {
            let m = py_methods::listed(members[n - 1]);
            assert forall|x: py_methods::MethodView| #[trigger]
                py_methods::in_order(members, n).contains(x) implies py_methods::is_listed(
                x.name,
            ) by {
                lemma_inserted_are_of(before, m, x);
                assert(m.name == members[n - 1].name@);
            }
        }
    }
}

proof fn lemma_inserted_are_of(
    list: Seq<py_methods::MethodView>,
    m: py_methods::MethodView,
    x: py_methods::MethodView,
)
    requires
        py_methods::insert_method(list, m).contains(x),
    ensures
        x == m || list.contains(x),
    decreases list.len(),
{
    let all = py_methods::insert_method(list, m);
    let k = all.index_of(x);
    if list.len() == 0 || !py_methods::before(m, list.last()) {
        if k < list.len() {
            assert(list[k] == x);
        }
    } else {
        let front = list.drop_last();
        let head = py_methods::insert_method(front, m);
        if k < head.len() {
            assert(head[k] == x);
            assert(head.contains(x));
            lemma_inserted_are_of(front, m, x);
            if front.contains(x) {
                let j = front.index_of(x);
                assert(list[j] == x);
            }
        } else {
            assert(list[list.len() - 1] == x);
        }
    }
}

proof fn lemma_json_item(items: Seq<DataView>, n: nat, i: int)
    requires
        n <= items.len(),
    ensures
        py_bridge::json_list(items, n).len() == n,
        0 <= i < n ==> py_bridge::json_list(items, n)[i] == py_bridge::json_value(items[i]),
    decreases n,
{
    if n > 0 {
        lemma_json_item(items, (n - 1) as nat, i);
    }
}

/// What is read as JSON comes over as what it is: a list has the items of the array, in order, and
/// each of them is what it would be alone.
pub proof fn read_values_come_over(
    d: &JsonData,
    r: BamlValue,
    item: &JsonData,
    q: BamlValue,
    i: int,
)
    requires
        call_ensures(py_bridge::json_value_to_baml_value, (d,), r),
        call_ensures(py_bridge::json_value_to_baml_value, (item,), q),
    ensures
        d@ is Null ==> r@ is Null,
        d@ matches DataView::Bool(b) ==> r@ == BamlView::Bool(b),
        d@ matches DataView::Text(t) ==> r@ == BamlView::Text(t),
        d@ matches DataView::Number { integer: Some(n), .. } ==> r@ == BamlView::Int(n),
        d@ matches DataView::Number { integer: None, fraction: Some(n) } ==> r@ == BamlView::Float(
            n,
        ),
        d@ matches DataView::Array(items) ==> (r@ matches BamlView::List(l) && l.len() == items.len()
            && (0 <= i < items.len() && items[i] == item@ ==> l[i] == q@)),
        d@ is Object ==> r@ is Dict,
{
    if let DataView::Array(items) = d@ {
        lemma_json_item(items, items.len(), i);
    }
}

proof fn lemma_untyped_item(items: Seq<PyObject>, n: nat, i: int)
    requires
        n <= items.len(),
        py_bridge::untyped_items(items, n) is Ok,
    ensures
        py_bridge::untyped_items(items, n)->Ok_0.len() == n,
        0 <= i < n ==> py_bridge::untyped(items[i]) == Ok::<BamlView, ParseErrorView>(
            py_bridge::untyped_items(items, n)->Ok_0[i],
        ),
    decreases n,
{
    if n > 0 {
        lemma_untyped_item(items, (n - 1) as nat, i);
    }
}

/// A value of the interpreter that nothing says the type of comes over as what it is: a list or a
/// tuple keeps its items, in order, and each of them is what it would be alone.
pub proof fn values_of_no_type_come_over(
    obj: &PyObject,
    v: BamlValue,
    item: &PyObject,
    q: Result<BamlValue, BamlParseError>,
    i: int,
)
    requires
        call_ensures(
            py_bridge::py_any_to_baml_value_untyped,
            (obj,),
            Ok::<BamlValue, BamlParseError>(v),
        ),
        call_ensures(py_bridge::py_any_to_baml_value_untyped, (item,), q),
    ensures
        obj.kind == PyKind::Null ==> v@ is Null,
        obj.kind == PyKind::Bool ==> (obj.truth matches Ok(b) && v@ == BamlView::Bool(b)),
        obj.kind != PyKind::Null && obj.kind != PyKind::Bool && obj.integer is Ok ==> v@
            == BamlView::Int(obj.integer->Ok_0),
        obj.kind != PyKind::Null && obj.kind != PyKind::Bool && obj.integer is Err
            && obj.fraction is Err && obj.text is Ok ==> v@ == BamlView::Text(obj.text->Ok_0@),
        (obj.kind == PyKind::List || obj.kind == PyKind::Tuple) && obj.integer is Err
            && obj.fraction is Err && obj.text is Err ==> (v@ matches BamlView::List(l) && l.len()
            == obj.items@.len() && (0 <= i < l.len() && obj.items@[i] == *item ==> (q matches Ok(w)
            && l[i] == w@))),
{
    if (obj.kind == PyKind::List || obj.kind == PyKind::Tuple) && obj.integer is Err
        && obj.fraction is Err && obj.text is Err {
        lemma_untyped_item(obj.items@, obj.items@.len(), i);
    }
}

} // verus!
