//! The methods of the types that a schema names, found by what the inputs and their modules offer.

use vstd::prelude::*;

use crate::modules::rlm::py_methods;
use crate::modules::rlm::py_methods::{collect_visible_methods, MethodView};
use crate::modules::rlm::py_walk;
use crate::modules::rlm::py_walk::{
    collect_methods_by_var, put_methods, PyGraph, Survey, SurveyView, Walk, WalkView,
};
use crate::modules::rlm::runtime::{InterpreterSetup, MethodSignature};
use crate::modules::rlm::types::{ClassDef, ClassField, OutputFormat};
use crate::modules::rlm::values::PyKind;
use crate::names;
use crate::text;

verus! {

/// The rendered names of the first `n` classes, each once and in order.
pub open spec fn schema_names(classes: Seq<ClassDef>, n: nat) -> Seq<Seq<char>>
    decreases n,
{
    if n == 0 || n > classes.len() {
        Seq::empty()
    } else {
        names::insert_name(
            schema_names(classes, (n - 1) as nat),
            classes[n - 1].name.rendered@,
        )
    }
}

/// The names that the first `n` classes with a rendered name go by, in order.
pub open spec fn aliases(classes: Seq<ClassDef>, rendered: Seq<char>, n: nat) -> Seq<Seq<char>>
    decreases n,
{
    if n == 0 || n > classes.len() {
        Seq::empty()
    } else {
        let before = aliases(classes, rendered, (n - 1) as nat);
        if classes[n - 1].name.rendered@ == rendered {
            names::insert_name(
                names::insert_name(before, rendered),
                classes[n - 1].raw_name@,
            )
        } else {
            before
        }
    }
}

pub open spec fn aliases_of(f: OutputFormat, rendered: Seq<char>) -> Seq<Seq<char>> {
    aliases(f.classes@, rendered, f.classes@.len())
}

/// The fields of the first class with the rendered name, from the class at `i` on.
pub open spec fn fields_from(classes: Seq<ClassDef>, rendered: Seq<char>, i: int) -> Seq<ClassField>
    decreases classes.len() - i,
{
    if i < 0 || i >= classes.len() {
        Seq::empty()
    } else if classes[i].name.rendered@ == rendered {
        classes[i].fields@
    } else {
        fields_from(classes, rendered, i + 1)
    }
}

fn list_names(f: &OutputFormat) -> (r: Vec<String>)
    ensures
        text::views(r@) == schema_names(f.classes@, f.classes@.len()),
{
    let mut out: Vec<String> = Vec::new();
    let mut i: usize = 0;
    proof {
        assert(text::views(out@) =~= Seq::empty());
    }
    while i < f.classes.len()
        invariant
            i <= f.classes@.len(),
            text::views(out@) == schema_names(f.classes@, i as nat),
        decreases f.classes@.len() - i,
    {
        names::add_name(&mut out, f.classes[i].name.rendered.as_str());
        i += 1;
    }
    out
}

fn list_aliases(f: &OutputFormat, rendered: &str) -> (r: Vec<String>)
    ensures
        text::views(r@) == aliases_of(*f, rendered@),
{
    let mut out: Vec<String> = Vec::new();
    let mut i: usize = 0;
    proof {
        assert(text::views(out@) =~= Seq::empty());
    }
    while i < f.classes.len()
        invariant
            i <= f.classes@.len(),
            text::views(out@) == aliases(f.classes@, rendered@, i as nat),
        decreases f.classes@.len() - i,
    {
        if text::text_eq(f.classes[i].name.rendered.as_str(), rendered) {
            names::add_name(&mut out, rendered);
            names::add_name(&mut out, f.classes[i].raw_name.as_str());
        }
        i += 1;
    }
    out
}

/// The first entry of each name among the first `n`.
pub open spec fn first_entries(e: Seq<(String, usize)>, n: nat) -> Map<Seq<char>, usize>
    decreases n,
{
    if n == 0 || n > e.len() {
        Map::empty()
    } else {
        names::with_new(first_entries(e, (n - 1) as nat), e[n - 1].0@, e[n - 1].1)
    }
}

fn index_entries(e: &Vec<(String, usize)>) -> (r: Vec<(String, usize)>)
    ensures
        names::sorted_names(r@),
        names::map_of(r@) == first_entries(e@, e@.len()),
{
    let mut out: Vec<(String, usize)> = Vec::new();
    let mut i: usize = 0;
    proof {
        assert(names::map_of(out@) =~= Map::empty());
    }
    while i < e.len()
        invariant
            i <= e@.len(),
            names::sorted_names(out@),
            names::map_of(out@) == first_entries(e@, i as nat),
        decreases e@.len() - i,
    {
        names::put_new(&mut out, e[i].0.as_str(), e[i].1);
        i += 1;
    }
    out
}

/// The entry of the first of the names that has one.
pub open spec fn first_in(list: Seq<Seq<char>>, m: Map<Seq<char>, usize>, n: nat) -> Option<usize>
    decreases n,
{
    if n == 0 || n > list.len() {
        None
    } else {
        match first_in(list, m, (n - 1) as nat) {
            Some(x) => Some(x),
            None => if m.dom().contains(list[n - 1]) {
                Some(m[list[n - 1]])
            } else {
                None
            },
        }
    }
}

proof fn lemma_first_in(list: Seq<Seq<char>>, m: Map<Seq<char>, usize>, a: nat, b: nat)
    requires
        a <= b <= list.len(),
        first_in(list, m, a) is Some,
    ensures
        first_in(list, m, b) == first_in(list, m, a),
    decreases b,
{
    if a < b {
        lemma_first_in(list, m, a, (b - 1) as nat);
    }
}

fn find_first(list: &Vec<String>, m: &Vec<(String, usize)>) -> (r: Option<usize>)
    requires
        names::sorted_names(m@),
    ensures
        r == first_in(text::views(list@), names::map_of(m@), list@.len()),
{
    let mut i: usize = 0;
    while i < list.len()
        invariant
            i <= list@.len(),
            names::sorted_names(m@),
            first_in(text::views(list@), names::map_of(m@), i as nat) is None,
        decreases list@.len() - i,
    {
        proof {
            assert(text::views(list@)[i as int] == list@[i as int]@);
        }
        match names::get(m, list[i].as_str()) {
            Some(x) => {
                proof {
                    lemma_first_in(
                        text::views(list@),
                        names::map_of(m@),
                        (i + 1) as nat,
                        list@.len(),
                    );
                }
                return Some(*x);
            },
            None => {},
        }
        i += 1;
    }
    None
}

/// Where classes are looked up: those seen on the walk, then those of the modules, then all.
pub struct LookupView {
    pub observed: Map<Seq<char>, usize>,
    pub modules: Map<Seq<char>, usize>,
    pub subclasses: Map<Seq<char>, usize>,
    pub instances: Map<Seq<char>, usize>,
}

/// The class that a list of names stands for.
pub open spec fn class_for(l: LookupView, list: Seq<Seq<char>>) -> Option<usize> {
    match first_in(list, l.observed, list.len()) {
        Some(c) => Some(c),
        None => match first_in(list, l.modules, list.len()) {
            Some(c) => Some(c),
            None => first_in(list, l.subclasses, list.len()),
        },
    }
}

/// The classes and instances that names of the schema stand for.
#[derive(Debug)]
struct Resolved {
    classes: Vec<(String, usize)>,
    instances: Vec<(String, usize)>,
}

#[verifier::ext_equal]
pub struct ResolvedView {
    pub classes: Map<Seq<char>, usize>,
    pub instances: Map<Seq<char>, usize>,
}

impl View for Resolved {
    type V = ResolvedView;

    closed spec fn view(&self) -> ResolvedView {
        ResolvedView {
            classes: names::map_of(self.classes@),
            instances: names::map_of(self.instances@),
        }
    }
}

impl ResolvedView {
    pub open spec fn within(self, g: PyGraph) -> bool {
        &&& forall|n: Seq<char>| #[trigger]
            self.classes.dom().contains(n) ==> self.classes[n] < g.classes@.len()
        &&& forall|n: Seq<char>| #[trigger]
            self.instances.dom().contains(n) ==> self.instances[n] < g.objects@.len()
    }
}

impl Resolved {
    closed spec fn wf(self, g: PyGraph) -> bool {
        &&& names::sorted_names(self.classes@)
        &&& names::sorted_names(self.instances@)
        &&& self@.within(g)
    }
}

/// What the first `n` names of the schema stand for at first. A name with an instance but no
/// class stands for the class of the instance.
pub open spec fn resolved_at_first(
    g: PyGraph,
    f: OutputFormat,
    l: LookupView,
    list: Seq<Seq<char>>,
    n: nat,
) -> ResolvedView
    decreases n,
{
    if n == 0 || n > list.len() {
        ResolvedView { classes: Map::empty(), instances: Map::empty() }
    } else {
        let before = resolved_at_first(g, f, l, list, (n - 1) as nat);
        let name = list[n - 1];
        let class = class_for(l, aliases_of(f, name));
        let instance = first_in(aliases_of(f, name), l.instances, aliases_of(f, name).len());
        ResolvedView {
            classes: match class {
                Some(c) => before.classes.insert(name, c),
                None => match instance {
                    Some(o) => before.classes.insert(name, g.objects@[o as int].class),
                    None => before.classes,
                },
            },
            instances: match instance {
                Some(o) => before.instances.insert(name, o),
                None => before.instances,
            },
        }
    }
}

/// The value of an object's field, which is the first with the name among those from `i` on.
pub open spec fn field_value(e: Seq<(String, usize)>, name: Seq<char>, i: int) -> Option<usize>
    decreases e.len() - i,
{
    if i < 0 || i >= e.len() {
        None
    } else if e[i].0@ == name {
        Some(e[i].1)
    } else {
        field_value(e, name, i + 1)
    }
}

fn read_field(e: &Vec<(String, usize)>, name: &str) -> (r: Option<usize>)
    ensures
        r == field_value(e@, name@, 0),
        r matches Some(v) ==> exists|k: int| 0 <= k < e@.len() && (#[trigger] e@[k]).1 == v,
{
    let mut i: usize = 0;
    while i < e.len()
        invariant
            i <= e@.len(),
            field_value(e@, name@, 0) == field_value(e@, name@, i as int),
        decreases e@.len() - i,
    {
        if text::text_eq(e[i].0.as_str(), name) {
            return Some(e[i].1);
        }
        i += 1;
    }
    None
}

/// The object that tells the type of a field: its value or, for a list or a tuple, the first
/// item. None and what can be called tell nothing.
pub open spec fn candidate(g: PyGraph, instance: usize, field: Seq<char>) -> Option<usize> {
    match field_value(g.objects@[instance as int].fields@, field, 0) {
        None => None,
        Some(v) => {
            let o = g.objects@[v as int];
            let c = if o.kind is List || o.kind is Tuple {
                if o.items@.len() == 0 {
                    None
                } else {
                    Some(o.items@[0])
                }
            } else {
                Some(v)
            };
            match c {
                None => None,
                Some(x) => if g.objects@[x as int].kind is Null || g.objects@[x as int].callable {
                    None
                } else {
                    Some(x)
                },
            }
        },
    }
}

fn field_candidate(g: &PyGraph, instance: usize, field: &str) -> (r: Option<usize>)
    requires
        g.wf(),
        instance < g.objects@.len(),
    ensures
        r == candidate(*g, instance, field@),
        r matches Some(x) ==> x < g.objects@.len(),
{
    proof {
        assert(py_walk::object_within(
            g.objects@[instance as int],
            g.classes@.len(),
            g.objects@.len(),
        ));
    }
    match read_field(&g.objects[instance].fields, field) {
        None => None,
        Some(v) => {
            let o = &g.objects[v];
            proof {
                assert(py_walk::object_within(*o, g.classes@.len(), g.objects@.len()));
            }
            let is_row = match o.kind {
                PyKind::List | PyKind::Tuple => true,
                _ => false,
            };
            if is_row && o.items.len() == 0 {
                return None;
            }
            let x = if is_row {
                o.items[0]
            } else {
                v
            };
            let is_null = match g.objects[x].kind {
                PyKind::Null => true,
                _ => false,
            };
            if is_null || g.objects[x].callable {
                None
            } else {
                Some(x)
            }
        },
    }
}

/// The object has a type that goes by one of the names.
pub open spec fn is_one_of(g: PyGraph, id: usize, list: Seq<Seq<char>>) -> bool {
    match g.classes@[g.objects@[id as int].class as int].name {
        Some(n) => list.contains(n@),
        None => false,
    }
}

/// The first among the first `n` fields of an instance that tells a type of one of the names.
pub open spec fn found_in_fields(
    g: PyGraph,
    instance: usize,
    fields: Seq<ClassField>,
    list: Seq<Seq<char>>,
    n: nat,
) -> Option<usize>
    decreases n,
{
    if n == 0 || n > fields.len() {
        None
    } else {
        match found_in_fields(g, instance, fields, list, (n - 1) as nat) {
            Some(x) => Some(x),
            None => match candidate(g, instance, fields[n - 1].name.real@) {
                Some(x) => if is_one_of(g, x, list) {
                    Some(x)
                } else {
                    None
                },
                None => None,
            },
        }
    }
}

proof fn lemma_found_in_fields(
    g: PyGraph,
    instance: usize,
    fields: Seq<ClassField>,
    list: Seq<Seq<char>>,
    a: nat,
    b: nat,
)
    requires
        a <= b <= fields.len(),
        found_in_fields(g, instance, fields, list, a) is Some,
    ensures
        found_in_fields(g, instance, fields, list, b) == found_in_fields(
            g,
            instance,
            fields,
            list,
            a,
        ),
    decreases b,
{
    if a < b {
        lemma_found_in_fields(g, instance, fields, list, a, (b - 1) as nat);
    }
}

fn find_in_fields(
    g: &PyGraph,
    instance: usize,
    fields: &Vec<ClassField>,
    list: &Vec<String>,
) -> (r: Option<usize>)
    requires
        g.wf(),
        instance < g.objects@.len(),
    ensures
        r == found_in_fields(*g, instance, fields@, text::views(list@), fields@.len()),
        r matches Some(x) ==> x < g.objects@.len(),
{
    let mut i: usize = 0;
    while i < fields.len()
        invariant
            g.wf(),
            instance < g.objects@.len(),
            i <= fields@.len(),
            found_in_fields(*g, instance, fields@, text::views(list@), i as nat) is None,
        decreases fields@.len() - i,
    {
        match field_candidate(g, instance, fields[i].name.real.as_str()) {
            Some(x) => {
                proof {
                    assert(py_walk::object_within(
                        g.objects@[x as int],
                        g.classes@.len(),
                        g.objects@.len(),
                    ));
                }
                match &g.classes[g.objects[x].class].name {
                    Some(n) => {
                        if text::contains_text(list, n.as_str()) {
                            proof {
                                lemma_found_in_fields(
                                    *g,
                                    instance,
                                    fields@,
                                    text::views(list@),
                                    (i + 1) as nat,
                                    fields@.len(),
                                );
                            }
                            return Some(x);
                        }
                    },
                    None => {},
                }
            },
            None => {},
        }
        i += 1;
    }
    None
}

/// The first object that tells a type of one of the names, in the fields of the instances of the
/// first `n` names of the schema.
pub open spec fn found(
    g: PyGraph,
    f: OutputFormat,
    schema: Seq<Seq<char>>,
    s: ResolvedView,
    list: Seq<Seq<char>>,
    n: nat,
) -> Option<usize>
    decreases n,
{
    if n == 0 || n > schema.len() {
        None
    } else {
        match found(g, f, schema, s, list, (n - 1) as nat) {
            Some(x) => Some(x),
            None => if s.instances.dom().contains(schema[n - 1]) {
                let fields = fields_from(f.classes@, schema[n - 1], 0);
                found_in_fields(g, s.instances[schema[n - 1]], fields, list, fields.len())
            } else {
                None
            },
        }
    }
}

proof fn lemma_found(
    g: PyGraph,
    f: OutputFormat,
    schema: Seq<Seq<char>>,
    s: ResolvedView,
    list: Seq<Seq<char>>,
    a: nat,
    b: nat,
)
    requires
        a <= b <= schema.len(),
        found(g, f, schema, s, list, a) is Some,
    ensures
        found(g, f, schema, s, list, b) == found(g, f, schema, s, list, a),
    decreases b,
{
    if a < b {
        lemma_found(g, f, schema, s, list, a, (b - 1) as nat);
    }
}

fn class_with<'a>(f: &'a OutputFormat, rendered: &str) -> (r: Option<&'a ClassDef>)
    ensures
        match r {
            Some(c) => c.fields@ == fields_from(f.classes@, rendered@, 0),
            None => fields_from(f.classes@, rendered@, 0).len() == 0,
        },
{
    let mut i: usize = 0;
    while i < f.classes.len()
        invariant
            i <= f.classes@.len(),
            fields_from(f.classes@, rendered@, 0) == fields_from(f.classes@, rendered@, i as int),
        decreases f.classes@.len() - i,
    {
        if text::text_eq(f.classes[i].name.rendered.as_str(), rendered) {
            return Some(&f.classes[i]);
        }
        i += 1;
    }
    None
}

fn find_object(
    g: &PyGraph,
    f: &OutputFormat,
    schema: &Vec<String>,
    s: &Resolved,
    list: &Vec<String>,
) -> (r: Option<usize>)
    requires
        g.wf(),
        s.wf(*g),
    ensures
        r == found(*g, *f, text::views(schema@), s@, text::views(list@), schema@.len()),
        r matches Some(x) ==> x < g.objects@.len(),
{
    let mut i: usize = 0;
    while i < schema.len()
        invariant
            g.wf(),
            s.wf(*g),
            i <= schema@.len(),
            found(*g, *f, text::views(schema@), s@, text::views(list@), i as nat) is None,
        decreases schema@.len() - i,
    {
        let name = schema[i].as_str();
        proof {
            assert(text::views(schema@)[i as int] == name@);
        }
        match names::get(&s.instances, name) {
            Some(o) => {
                match class_with(f, name) {
                    Some(c) => {
                        let hit = find_in_fields(g, *o, &c.fields, list);
                        if hit.is_some() {
                            proof {
                                lemma_found(
                                    *g,
                                    *f,
                                    text::views(schema@),
                                    s@,
                                    text::views(list@),
                                    (i + 1) as nat,
                                    schema@.len(),
                                );
                            }
                            return hit;
                        }
                    },
                    None => {},
                }
            },
            None => {},
        }
        i += 1;
    }
    None
}

/// What is found for a name that stands for no class yet.
pub open spec fn discovery(
    g: PyGraph,
    f: OutputFormat,
    schema: Seq<Seq<char>>,
    s: ResolvedView,
    name: Seq<char>,
) -> Option<usize> {
    if s.classes.dom().contains(name) {
        None
    } else {
        found(g, f, schema, s, aliases_of(f, name), schema.len())
    }
}

/// Something is found for one of the first `n` names.
pub open spec fn progressed(
    g: PyGraph,
    f: OutputFormat,
    schema: Seq<Seq<char>>,
    s: ResolvedView,
    n: nat,
) -> bool {
    exists|i: int|
        0 <= i < n && i < schema.len() && #[trigger] discovery(g, f, schema, s, schema[i]) is Some
}

/// What the names stand for when what is found for the first `n` of them has been noted.
pub open spec fn projected(
    g: PyGraph,
    f: OutputFormat,
    schema: Seq<Seq<char>>,
    s: ResolvedView,
    n: nat,
) -> ResolvedView
    decreases n,
{
    if n == 0 || n > schema.len() {
        s
    } else {
        let before = projected(g, f, schema, s, (n - 1) as nat);
        match discovery(g, f, schema, s, schema[n - 1]) {
            Some(x) => ResolvedView {
                classes: before.classes.insert(schema[n - 1], g.objects@[x as int].class),
                instances: names::with_new(before.instances, schema[n - 1], x),
            },
            None => before,
        }
    }
}

/// What the names stand for when at most `rounds` rounds have looked for more.
pub open spec fn settled(
    g: PyGraph,
    f: OutputFormat,
    schema: Seq<Seq<char>>,
    s: ResolvedView,
    rounds: nat,
) -> ResolvedView
    decreases rounds,
{
    if rounds == 0 || !progressed(g, f, schema, s, schema.len()) {
        s
    } else {
        settled(
            g,
            f,
            schema,
            projected(g, f, schema, s, schema.len()),
            (rounds - 1) as nat,
        )
    }
}

fn discoveries(g: &PyGraph, f: &OutputFormat, schema: &Vec<String>, s: &Resolved) -> (r: Vec<
    Option<usize>,
>)
    requires
        g.wf(),
        s.wf(*g),
    ensures
        r@.len() == schema@.len(),
        forall|i: int|
            0 <= i < r@.len() ==> #[trigger] r@[i] == discovery(
                *g,
                *f,
                text::views(schema@),
                s@,
                schema@[i]@,
            ) && (r@[i] matches Some(x) ==> x < g.objects@.len()),
{
    let mut out: Vec<Option<usize>> = Vec::new();
    let mut i: usize = 0;
    while i < schema.len()
        invariant
            g.wf(),
            s.wf(*g),
            i <= schema@.len(),
            out@.len() == i,
            forall|k: int|
                0 <= k < i ==> #[trigger] out@[k] == discovery(
                    *g,
                    *f,
                    text::views(schema@),
                    s@,
                    schema@[k]@,
                ) && (out@[k] matches Some(x) ==> x < g.objects@.len()),
        decreases schema@.len() - i,
    {
        let hit = match names::get(&s.classes, schema[i].as_str()) {
            Some(_) => None,
            None => {
                let list = list_aliases(f, schema[i].as_str());
                find_object(g, f, schema, s, &list)
            },
        };
        out.push(hit);
        i += 1;
    }
    out
}

/// Looks once for what the names without a class stand for, and says whether anything was found.
fn project_unresolved_schema_classes_from_runtime_fields(
    g: &PyGraph,
    f: &OutputFormat,
    schema: &Vec<String>,
    s: &mut Resolved,
) -> (r: bool)
    requires
        g.wf(),
        old(s).wf(*g),
    ensures
        final(s).wf(*g),
        r == progressed(*g, *f, text::views(schema@), old(s)@, schema@.len()),
        final(s)@ == projected(*g, *f, text::views(schema@), old(s)@, schema@.len()),
{
    let hits = discoveries(g, f, schema, s);
    let ghost list = text::views(schema@);
    let ghost start = s@;
    let mut any = false;
    let mut i: usize = 0;
    while i < schema.len()
        invariant
            g.wf(),
            s.wf(*g),
            list == text::views(schema@),
            i <= schema@.len(),
            hits@.len() == schema@.len(),
            forall|k: int|
                0 <= k < hits@.len() ==> #[trigger] hits@[k] == discovery(
                    *g,
                    *f,
                    list,
                    start,
                    schema@[k]@,
                ) && (hits@[k] matches Some(x) ==> x < g.objects@.len()),
            any == progressed(*g, *f, list, start, i as nat),
            s@ == projected(*g, *f, list, start, i as nat),
        decreases schema@.len() - i,
    {
        let ghost prior = s@;
        proof {
            assert(list[i as int] == schema@[i as int]@);
            assert(hits@[i as int] == discovery(*g, *f, list, start, list[i as int]));
        }
        if let Some(x) = hits[i] {
            proof {
                assert(py_walk::object_within(
                    g.objects@[x as int],
                    g.classes@.len(),
                    g.objects@.len(),
                ));
            }
            names::put(&mut s.classes, schema[i].clone(), g.objects[x].class);
            names::put_new(&mut s.instances, schema[i].as_str(), x);
            any = true;
            proof {
                assert(progressed(*g, *f, list, start, (i + 1) as nat));
            }
        } else {
            proof {
                if progressed(*g, *f, list, start, (i + 1) as nat) {
                    let k = choose|k: int|
                        0 <= k < i + 1 && k < list.len() && #[trigger] discovery(
                            *g,
                            *f,
                            list,
                            start,
                            list[k],
                        ) is Some;
                    assert(k < i);
                    assert(progressed(*g, *f, list, start, i as nat));
                }
            }
        }
        proof {
            if progressed(*g, *f, list, start, i as nat) {
                let k = choose|k: int|
                    0 <= k < i && k < list.len() && #[trigger] discovery(
                        *g,
                        *f,
                        list,
                        start,
                        list[k],
                    ) is Some;
                assert(discovery(*g, *f, list, start, list[k]) is Some);
                assert(progressed(*g, *f, list, start, (i + 1) as nat));
            }
            assert(s@ =~= projected(*g, *f, list, start, (i + 1) as nat));
        }
        i += 1;
    }
    any
}

/// The name is that of a variant: a known type's name, an underscore, and a capital letter.
pub open spec fn is_variant_name(name: Seq<char>, known: spec_fn(Seq<char>) -> bool) -> bool {
    exists|i: int| #[trigger]
        is_first_underscore(name, i) && i > 0 && i + 1 < name.len() && 'A' <= name[i + 1] <= 'Z'
            && known(name.take(i))
}

pub open spec fn is_first_underscore(name: Seq<char>, i: int) -> bool {
    0 <= i < name.len() && name[i] == '_' && forall|j: int| 0 <= j < i ==> #[trigger] name[j] != '_'
}

/// A class or an enum of the schema has the rendered name.
pub open spec fn is_schema_type(f: OutputFormat, name: Seq<char>) -> bool {
    (exists|i: int| 0 <= i < f.classes@.len() && (#[trigger] f.classes@[i]).name.rendered@ == name)
        || (exists|i: int| 0 <= i < f.enums@.len() && (#[trigger] f.enums@[i]).name.rendered@
        == name)
}

fn schema_has_type(f: &OutputFormat, name: &str) -> (r: bool)
    ensures
        r == is_schema_type(*f, name@),
{
    let mut i: usize = 0;
    while i < f.classes.len()
        invariant
            i <= f.classes@.len(),
            forall|k: int| 0 <= k < i ==> (#[trigger] f.classes@[k]).name.rendered@ != name@,
        decreases f.classes@.len() - i,
    {
        if text::text_eq(f.classes[i].name.rendered.as_str(), name) {
            return true;
        }
        i += 1;
    }
    let mut j: usize = 0;
    while j < f.enums.len()
        invariant
            j <= f.enums@.len(),
            forall|k: int| 0 <= k < j ==> (#[trigger] f.enums@[k]).name.rendered@ != name@,
        decreases f.enums@.len() - j,
    {
        if text::text_eq(f.enums[j].name.rendered.as_str(), name) {
            return true;
        }
        j += 1;
    }
    false
}

/// The name is that of a variant of a type of the schema, or of a class seen on the walk.
pub open spec fn is_synthetic_variant(
    f: OutputFormat,
    observed: Map<Seq<char>, usize>,
    name: Seq<char>,
) -> bool {
    is_variant_name(
        name,
        |n: Seq<char>| is_schema_type(f, n) || observed.dom().contains(n),
    )
}

fn is_synthetic_variant_class_name(
    f: &OutputFormat,
    observed: &Vec<(String, usize)>,
    name: &str,
) -> (r: bool)
    requires
        names::sorted_names(observed@),
    ensures
        r == is_synthetic_variant(*f, names::map_of(observed@), name@),
{
    let c = text::chars_of(name);
    let n = c.len();
    let ghost m = names::map_of(observed@);
    let ghost known = |t: Seq<char>| is_schema_type(*f, t) || m.dom().contains(t);
    let mut i: usize = 0;
    while i < n && c[i] != '_'
        invariant
            n == c@.len(),
            c@ == name@,
            i <= n,
            forall|j: int| 0 <= j < i ==> #[trigger] c@[j] != '_',
        decreases n - i,
    {
        i += 1;
    }
    proof {
        assert forall|j: int| is_first_underscore(name@, j) implies j == i && i < n by {
            if j < i {
                assert(c@[j] != '_');
            } else if j > i {
                assert(c@[i as int] == '_');
                assert(name@[i as int] != '_');
            }
        }
    }
    if i == 0 || i >= n || i + 1 >= n {
        return false;
    }
    proof {
        assert(is_first_underscore(name@, i as int));
    }
    let first = c[i + 1];
    if !('A' <= first && first <= 'Z') {
        return false;
    }
    let part = &c[0..i];
    proof {
        assert(part@ =~= name@.take(i as int));
    }
    let prefix = text::string_of(part);
    let r = schema_has_type(f, prefix.as_str()) || names::get(
        observed,
        prefix.as_str(),
    ).is_some();
    proof {
        assert(r == known(name@.take(i as int)));
    }
    r
}

/// A name that is made up for a variant: one with an underscore and another name with two, or one
/// of a variant of a known type.
pub open spec fn is_synthetic(
    f: OutputFormat,
    observed: Map<Seq<char>, usize>,
    name: Seq<char>,
) -> bool {
    (name.contains('_') && exists|i: int|
        0 <= i < aliases_of(f, name).len() && text::has_text(
            #[trigger] aliases_of(f, name)[i],
            "__"@,
        )) || is_synthetic_variant(f, observed, name)
}

fn name_is_synthetic(f: &OutputFormat, observed: &Vec<(String, usize)>, name: &str) -> (r: bool)
    requires
        names::sorted_names(observed@),
    ensures
        r == is_synthetic(*f, names::map_of(observed@), name@),
{
    let c = text::chars_of(name);
    if text::has_char(c.as_slice(), '_') {
        let list = list_aliases(f, name);
        let mut i: usize = 0;
        while i < list.len()
            invariant
                i <= list@.len(),
                name@.contains('_'),
                text::views(list@) == aliases_of(*f, name@),
                forall|k: int|
                    0 <= k < i ==> !text::has_text(#[trigger] aliases_of(*f, name@)[k], "__"@),
            decreases list@.len() - i,
        {
            proof {
                assert(text::views(list@)[i as int] == list@[i as int]@);
            }
            if text::contains_str(list[i].as_str(), "__") {
                proof {
                    assert(text::has_text(aliases_of(*f, name@)[i as int], "__"@));
                }
                return true;
            }
            i += 1;
        }
        proof {
            assert(forall|k: int|
                0 <= k < aliases_of(*f, name@).len() ==> !text::has_text(
                    #[trigger] aliases_of(*f, name@)[k],
                    "__"@,
                ));
        }
    }
    is_synthetic_variant_class_name(f, observed, name)
}

/// The methods that a name of the schema gets. One for which the walk listed methods keeps them,
/// and the class that it stands for must have that very name.
pub open spec fn schema_methods(
    g: PyGraph,
    f: OutputFormat,
    w: WalkView,
    s: ResolvedView,
    name: Seq<char>,
) -> Result<Seq<MethodView>, Seq<char>> {
    if is_synthetic(f, w.classes, name) {
        Ok(Seq::empty())
    } else if w.methods.dom().contains(name) {
        Ok(w.methods[name])
    } else if s.classes.dom().contains(name) {
        let c = g.classes@[s.classes[name] as int];
        if text::or_text(c.name, Seq::empty()) == name {
            match c.members {
                Ok(m) => Ok(py_methods::visible_methods(m@)),
                Err(e) => Err(e@),
            }
        } else {
            Ok(Seq::empty())
        }
    } else {
        Ok(Seq::empty())
    }
}

/// The methods by type when those of the first `n` names of the schema are in place.
pub open spec fn with_schema_methods(
    g: PyGraph,
    f: OutputFormat,
    w: WalkView,
    s: ResolvedView,
    schema: Seq<Seq<char>>,
    n: nat,
) -> Result<Map<Seq<char>, Seq<MethodView>>, Seq<char>>
    decreases n,
{
    if n == 0 || n > schema.len() {
        Ok(w.methods)
    } else {
        match with_schema_methods(g, f, w, s, schema, (n - 1) as nat) {
            Ok(m) => match schema_methods(g, f, w, s, schema[n - 1]) {
                Ok(list) => Ok(m.insert(schema[n - 1], list)),
                Err(e) => Err(e),
            },
            Err(e) => Err(e),
        }
    }
}

proof fn lemma_schema_error(
    g: PyGraph,
    f: OutputFormat,
    w: WalkView,
    s: ResolvedView,
    schema: Seq<Seq<char>>,
    a: nat,
    b: nat,
)
    requires
        a <= b <= schema.len(),
        with_schema_methods(g, f, w, s, schema, a) is Err,
    ensures
        with_schema_methods(g, f, w, s, schema, b) == with_schema_methods(g, f, w, s, schema, a),
    decreases b,
{
    if a < b {
        lemma_schema_error(g, f, w, s, schema, a, (b - 1) as nat);
    }
}

/// What can be looked up after a survey, given the classes of the modules in the order of the
/// modules, and all classes.
pub open spec fn lookup_view(
    w: WalkView,
    module_classes: Seq<(String, usize)>,
    subclasses: Seq<(String, usize)>,
) -> LookupView {
    LookupView {
        observed: w.classes,
        modules: first_entries(module_classes, module_classes.len()),
        subclasses: first_entries(subclasses, subclasses.len()),
        instances: w.instances,
    }
}

/// What the names of the schema stand for in the end.
pub open spec fn resolution(
    g: PyGraph,
    f: OutputFormat,
    w: WalkView,
    module_classes: Seq<(String, usize)>,
    subclasses: Seq<(String, usize)>,
) -> ResolvedView {
    let schema = schema_names(f.classes@, f.classes@.len());
    settled(
        g,
        f,
        schema,
        resolved_at_first(
            g,
            f,
            lookup_view(w, module_classes, subclasses),
            schema,
            schema.len(),
        ),
        schema.len(),
    )
}

/// The methods by type: those seen on the walk, and those of the types of the schema.
pub open spec fn methods_by_type(
    g: PyGraph,
    f: OutputFormat,
    w: WalkView,
    module_classes: Seq<(String, usize)>,
    subclasses: Seq<(String, usize)>,
) -> Result<Map<Seq<char>, Seq<MethodView>>, Seq<char>> {
    let schema = schema_names(f.classes@, f.classes@.len());
    with_schema_methods(
        g,
        f,
        w,
        resolution(g, f, w, module_classes, subclasses),
        schema,
        schema.len(),
    )
}

pub open spec fn entries_within(e: Seq<(String, usize)>, n: nat) -> bool {
    forall|i: int| 0 <= i < e.len() ==> (#[trigger] e[i]).1 < n
}

proof fn lemma_first_entries_within(e: Seq<(String, usize)>, n: nat, bound: nat)
    requires
        entries_within(e, bound),
        n <= e.len(),
    ensures
        forall|k: Seq<char>| #[trigger]
            first_entries(e, n).dom().contains(k) ==> first_entries(e, n)[k] < bound,
    decreases n,
{
    if n > 0 {
        lemma_first_entries_within(e, (n - 1) as nat, bound);
        let before = first_entries(e, (n - 1) as nat);
        assert forall|k: Seq<char>| #[trigger]
            first_entries(e, n).dom().contains(k) implies first_entries(e, n)[k] < bound by {
            if !before.dom().contains(k) {
                assert(e[n - 1].1 < bound);
            }
        }
    }
}

proof fn lemma_first_in_within(
    list: Seq<Seq<char>>,
    m: Map<Seq<char>, usize>,
    n: nat,
    bound: nat,
)
    requires
        forall|k: Seq<char>| #[trigger] m.dom().contains(k) ==> m[k] < bound,
    ensures
        first_in(list, m, n) matches Some(x) ==> x < bound,
    decreases n,
{
    if n > 0 && n <= list.len() {
        lemma_first_in_within(list, m, (n - 1) as nat, bound);
    }
}

fn resolve_schema_class_object(
    list: &Vec<String>,
    observed: &Vec<(String, usize)>,
    modules: &Vec<(String, usize)>,
    subclasses: &Vec<(String, usize)>,
) -> (r: Option<usize>)
    requires
        names::sorted_names(observed@),
        names::sorted_names(modules@),
        names::sorted_names(subclasses@),
    ensures
        forall|instances: Map<Seq<char>, usize>|
            r == #[trigger] class_for(
                LookupView {
                    observed: names::map_of(observed@),
                    modules: names::map_of(modules@),
                    subclasses: names::map_of(subclasses@),
                    instances,
                },
                text::views(list@),
            ),
{
    match find_first(list, observed) {
        Some(c) => Some(c),
        None => match find_first(list, modules) {
            Some(c) => Some(c),
            None => find_first(list, subclasses),
        },
    }
}

fn resolve_at_first(
    g: &PyGraph,
    f: &OutputFormat,
    schema: &Vec<String>,
    w: &Walk,
    module_classes: &Vec<(String, usize)>,
    subclasses: &Vec<(String, usize)>,
) -> (r: Resolved)
    requires
        g.wf(),
        w.wf(*g),
        entries_within(module_classes@, g.classes@.len()),
        entries_within(subclasses@, g.classes@.len()),
    ensures
        r.wf(*g),
        r@ == resolved_at_first(
            *g,
            *f,
            lookup_view(w@, module_classes@, subclasses@),
            text::views(schema@),
            schema@.len(),
        ),
{
    let modules = index_entries(module_classes);
    let all = index_entries(subclasses);
    let ghost l = lookup_view(w@, module_classes@, subclasses@);
    let ghost list = text::views(schema@);
    proof {
        lemma_first_entries_within(module_classes@, module_classes@.len(), g.classes@.len());
        lemma_first_entries_within(subclasses@, subclasses@.len(), g.classes@.len());
    }
    let mut s = Resolved { classes: Vec::new(), instances: Vec::new() };
    proof {
        assert(s@ =~= (ResolvedView { classes: Map::empty(), instances: Map::empty() }));
    }
    let mut i: usize = 0;
    while i < schema.len()
        invariant
            g.wf(),
            w.wf(*g),
            names::sorted_names(modules@),
            names::sorted_names(all@),
            l == lookup_view(w@, module_classes@, subclasses@),
            l.modules == names::map_of(modules@),
            l.subclasses == names::map_of(all@),
            forall|k: Seq<char>| #[trigger]
                l.modules.dom().contains(k) ==> l.modules[k] < g.classes@.len(),
            forall|k: Seq<char>| #[trigger]
                l.subclasses.dom().contains(k) ==> l.subclasses[k] < g.classes@.len(),
            list == text::views(schema@),
            i <= schema@.len(),
            s.wf(*g),
            s@ == resolved_at_first(*g, *f, l, list, i as nat),
        decreases schema@.len() - i,
    {
        let names_list = list_aliases(f, schema[i].as_str());
        let ghost known = text::views(names_list@);
        proof {
            assert(list[i as int] == schema@[i as int]@);
            lemma_first_in_within(known, l.observed, known.len(), g.classes@.len());
            lemma_first_in_within(known, l.modules, known.len(), g.classes@.len());
            lemma_first_in_within(known, l.subclasses, known.len(), g.classes@.len());
            lemma_first_in_within(known, l.instances, known.len(), g.objects@.len());
        }
        let class = resolve_schema_class_object(&names_list, &w.classes, &modules, &all);
        let instance = find_first(&names_list, &w.instances);
        proof {
            assert(class == class_for(l, known));
        }
        match instance {
            Some(o) => names::put(&mut s.instances, schema[i].clone(), o),
            None => {},
        }
        match class {
            Some(c) => names::put(&mut s.classes, schema[i].clone(), c),
            None => match instance {
                Some(o) => {
                    proof {
                        assert(py_walk::object_within(
                            g.objects@[o as int],
                            g.classes@.len(),
                            g.objects@.len(),
                        ));
                    }
                    names::put(&mut s.classes, schema[i].clone(), g.objects[o].class);
                },
                None => {},
            },
        }
        proof {
            assert(s@ =~= resolved_at_first(*g, *f, l, list, (i + 1) as nat));
        }
        i += 1;
    }
    s
}

fn schema_methods_of(
    g: &PyGraph,
    f: &OutputFormat,
    w: &Walk,
    s: &Resolved,
    name: &str,
) -> (r: Result<Option<Vec<MethodSignature>>, String>)
    requires
        g.wf(),
        w.wf(*g),
        s.wf(*g),
    ensures
        match r {
            Ok(Some(m)) => schema_methods(*g, *f, w@, s@, name@) == Ok::<
                Seq<MethodView>,
                Seq<char>,
            >(py_methods::method_views(m@)),
            Ok(None) => w@.methods.dom().contains(name@) && schema_methods(*g, *f, w@, s@, name@)
                == Ok::<Seq<MethodView>, Seq<char>>(w@.methods[name@]),
            Err(e) => schema_methods(*g, *f, w@, s@, name@) == Err::<Seq<MethodView>, Seq<char>>(
                e@,
            ),
        },
{
    let none: Vec<MethodSignature> = Vec::new();
    proof {
        assert(py_methods::method_views(none@) =~= Seq::empty());
    }
    if name_is_synthetic(f, &w.classes, name) {
        return Ok(Some(none));
    }
    if names::get(&w.methods, name).is_some() {
        return Ok(None);
    }
    match names::get(&s.classes, name) {
        Some(c) => {
            let class = &g.classes[*c];
            let same = match &class.name {
                Some(n) => text::text_eq(n.as_str(), name),
                None => name.is_empty(),
            };
            proof {
                if name@.len() == 0 {
                    assert(name@ =~= Seq::<char>::empty());
                }
            }
            if same {
                match &class.members {
                    Ok(m) => Ok(Some(collect_visible_methods(m))),
                    Err(e) => Err(e.clone()),
                }
            } else {
                Ok(Some(none))
            }
        },
        None => Ok(Some(none)),
    }
}

fn clone_methods(m: &Vec<MethodSignature>) -> (r: Vec<MethodSignature>)
    ensures
        py_methods::method_views(r@) == py_methods::method_views(m@),
{
    let mut out: Vec<MethodSignature> = Vec::new();
    let mut i: usize = 0;
    while i < m.len()
        invariant
            i <= m@.len(),
            out@.len() == i,
            forall|k: int| 0 <= k < i ==> #[trigger] out@[k] == m@[k],
        decreases m@.len() - i,
    {
        out.push(m[i].clone());
        i += 1;
    }
    proof {
        assert(py_methods::method_views(out@) =~= py_methods::method_views(m@));
    }
    out
}

fn clone_methods_by_name(e: &Vec<(String, Vec<MethodSignature>)>) -> (r: Vec<
    (String, Vec<MethodSignature>),
>)
    requires
        names::sorted_names(e@),
    ensures
        names::sorted_names(r@),
        py_walk::methods_map(r@) == py_walk::methods_map(e@),
{
    let mut out: Vec<(String, Vec<MethodSignature>)> = Vec::new();
    let mut i: usize = 0;
    while i < e.len()
        invariant
            i <= e@.len(),
            out@.len() == i,
            forall|k: int|
                0 <= k < i ==> (#[trigger] out@[k]).0@ == e@[k].0@ && py_methods::method_views(
                    out@[k].1@,
                ) == py_methods::method_views(e@[k].1@),
        decreases e@.len() - i,
    {
        out.push((e[i].0.clone(), clone_methods(&e[i].1)));
        i += 1;
    }
    proof {
        assert forall|a: int, b: int| 0 <= a < b < out@.len() implies text::lex_less(
            #[trigger] out@[a].0@,
            #[trigger] out@[b].0@,
        ) by {
            assert(text::lex_less(e@[a].0@, e@[b].0@));
        }
        assert forall|n: Seq<char>| names::named(out@, n) == names::named(e@, n) by {
            if names::named(out@, n) {
                let k = choose|k: int| names::is_at(out@, n, k);
                assert(names::is_at(e@, n, k));
            }
            if names::named(e@, n) {
                let k = choose|k: int| names::is_at(e@, n, k);
                assert(names::is_at(out@, n, k));
            }
        }
        assert forall|n: Seq<char>| #[trigger]
            py_walk::methods_map(out@).dom().contains(n) implies py_walk::methods_map(out@)[n]
            == py_walk::methods_map(e@)[n] by {
            let k = choose|k: int| names::is_at(out@, n, k);
            names::lemma_map_at(out@, k);
            names::lemma_map_at(e@, k);
        }
        assert(py_walk::methods_map(out@) =~= py_walk::methods_map(e@));
    }
    out
}

/// The methods by type. `module_classes` holds the classes of the modules that the walk named, in
/// the order of the modules, and `subclasses` holds all classes.
pub fn collect_methods_for_schema_types(
    g: &PyGraph,
    f: &OutputFormat,
    w: &Walk,
    module_classes: &Vec<(String, usize)>,
    subclasses: &Vec<(String, usize)>,
) -> (r: Result<Vec<(String, Vec<MethodSignature>)>, String>)
    requires
        g.wf(),
        w.wf(*g),
        entries_within(module_classes@, g.classes@.len()),
        entries_within(subclasses@, g.classes@.len()),
    ensures
        match r {
            Ok(m) => names::sorted_names(m@) && methods_by_type(
                *g,
                *f,
                w@,
                module_classes@,
                subclasses@,
            ) == Ok::<Map<Seq<char>, Seq<MethodView>>, Seq<char>>(py_walk::methods_map(m@)),
            Err(e) => methods_by_type(*g, *f, w@, module_classes@, subclasses@) == Err::<
                Map<Seq<char>, Seq<MethodView>>,
                Seq<char>,
            >(e@),
        },
{
    let schema = list_names(f);
    let ghost list = text::views(schema@);
    let mut s = resolve_at_first(g, f, &schema, w, module_classes, subclasses);
    let ghost first = s@;
    let total = schema.len();
    let mut left = total;
    let mut more = true;
    while more && left > 0
        invariant
            g.wf(),
            s.wf(*g),
            list == text::views(schema@),
            left <= total,
            total == schema@.len(),
            !more ==> s@ == settled(*g, *f, list, first, total as nat),
            more ==> settled(*g, *f, list, s@, left as nat) == settled(
                *g,
                *f,
                list,
                first,
                total as nat,
            ),
        decreases left, more as int,
    {
        let ghost prior = s@;
        more = project_unresolved_schema_classes_from_runtime_fields(g, f, &schema, &mut s);
        proof {
            if !more {
                lemma_no_progress(*g, *f, list, prior, list.len());
            }
        }
        if more {
            left -= 1;
        }
    }
    let ghost done = s@;
    proof {
        assert(done == resolution(*g, *f, w@, module_classes@, subclasses@));
    }
    let mut out = clone_methods_by_name(&w.methods);
    let mut i: usize = 0;
    while i < schema.len()
        invariant
            g.wf(),
            w.wf(*g),
            s.wf(*g),
            s@ == done,
            list == text::views(schema@),
            list == schema_names(f.classes@, f.classes@.len()),
            done == resolution(*g, *f, w@, module_classes@, subclasses@),
            i <= schema@.len(),
            names::sorted_names(out@),
            with_schema_methods(*g, *f, w@, done, list, i as nat) == Ok::<
                Map<Seq<char>, Seq<MethodView>>,
                Seq<char>,
            >(py_walk::methods_map(out@)),
        decreases schema@.len() - i,
    {
        proof {
            assert(list[i as int] == schema@[i as int]@);
        }
        match schema_methods_of(g, f, w, &s, schema[i].as_str()) {
            Ok(Some(m)) => {
                put_methods(&mut out, schema[i].as_str(), m);
            },
            Ok(None) => {
                let kept = match names::get(&w.methods, schema[i].as_str()) {
                    Some(m) => clone_methods(m),
                    None => Vec::new(),
                };
                put_methods(&mut out, schema[i].as_str(), kept);
            },
            Err(e) => {
                proof {
                    lemma_schema_error(
                        *g,
                        *f,
                        w@,
                        done,
                        list,
                        (i + 1) as nat,
                        list.len(),
                    );
                }
                return Err(e);
            },
        }
        i += 1;
    }
    Ok(out)
}

proof fn lemma_no_progress(
    g: PyGraph,
    f: OutputFormat,
    schema: Seq<Seq<char>>,
    s: ResolvedView,
    n: nat,
)
    requires
        n <= schema.len(),
        !progressed(g, f, schema, s, schema.len()),
    ensures
        projected(g, f, schema, s, n) == s,
    decreases n,
{
    if n > 0 {
        lemma_no_progress(g, f, schema, s, (n - 1) as nat);
        assert(discovery(g, f, schema, s, schema[n - 1]) is None);
    }
}

/// How many of the first `n` names stand for no class.
pub open spec fn unresolved(schema: Seq<Seq<char>>, s: ResolvedView, n: nat) -> nat
    decreases n,
{
    if n == 0 || n > schema.len() {
        0
    } else {
        unresolved(schema, s, (n - 1) as nat) + (if s.classes.dom().contains(schema[n - 1]) {
            0nat
        } else {
            1nat
        })
    }
}

proof fn lemma_projected_keeps(
    g: PyGraph,
    f: OutputFormat,
    schema: Seq<Seq<char>>,
    s: ResolvedView,
    n: nat,
)
    requires
        n <= schema.len(),
    ensures
        forall|k: Seq<char>| #[trigger]
            s.classes.dom().contains(k) ==> projected(g, f, schema, s, n).classes.dom().contains(k)
                && projected(g, f, schema, s, n).classes[k] == s.classes[k],
        forall|i: int|
            0 <= i < n && #[trigger] discovery(g, f, schema, s, schema[i]) is Some ==> projected(
                g,
                f,
                schema,
                s,
                n,
            ).classes.dom().contains(schema[i]),
    decreases n,
{
    if n > 0 {
        lemma_projected_keeps(g, f, schema, s, (n - 1) as nat);
        let before = projected(g, f, schema, s, (n - 1) as nat);
        let now = projected(g, f, schema, s, n);
        assert forall|i: int|
            0 <= i < n && #[trigger] discovery(g, f, schema, s, schema[i]) is Some implies
            now.classes.dom().contains(schema[i]) by {
            if i < n - 1 {
                assert(before.classes.dom().contains(schema[i]));
            }
        }
    }
}

proof fn lemma_fewer_unresolved(schema: Seq<Seq<char>>, s: ResolvedView, t: ResolvedView, n: nat)
    requires
        n <= schema.len(),
        forall|k: Seq<char>| #[trigger]
            s.classes.dom().contains(k) ==> t.classes.dom().contains(k),
    ensures
        unresolved(schema, t, n) <= unresolved(schema, s, n),
        (exists|i: int|
            0 <= i < n && !s.classes.dom().contains(#[trigger] schema[i])
                && t.classes.dom().contains(schema[i])) ==> unresolved(schema, t, n) < unresolved(
            schema,
            s,
            n,
        ),
    decreases n,
{
    if n > 0 {
        lemma_fewer_unresolved(schema, s, t, (n - 1) as nat);
    }
}

proof fn lemma_settles(
    g: PyGraph,
    f: OutputFormat,
    schema: Seq<Seq<char>>,
    s: ResolvedView,
    rounds: nat,
)
    requires
        unresolved(schema, s, schema.len()) <= rounds,
    ensures
        !progressed(g, f, schema, settled(g, f, schema, s, rounds), schema.len()),
    decreases rounds,
{
    if progressed(g, f, schema, s, schema.len()) {
        let next = projected(g, f, schema, s, schema.len());
        lemma_projected_keeps(g, f, schema, s, schema.len());
        let i = choose|i: int|
            0 <= i < schema.len() && #[trigger] discovery(g, f, schema, s, schema[i]) is Some;
        assert(!s.classes.dom().contains(schema[i]) && next.classes.dom().contains(schema[i]));
        lemma_fewer_unresolved(schema, s, next, schema.len());
        lemma_settles(g, f, schema, next, (rounds - 1) as nat);
    }
}

proof fn lemma_unresolved_at_most(schema: Seq<Seq<char>>, s: ResolvedView, n: nat)
    requires
        n <= schema.len(),
    ensures
        unresolved(schema, s, n) <= n,
    decreases n,
{
    if n > 0 {
        lemma_unresolved_at_most(schema, s, (n - 1) as nat);
    }
}

/// The search for what the names of a schema stand for ends only when nothing more can be found.
pub proof fn resolution_is_complete(
    g: PyGraph,
    f: OutputFormat,
    w: WalkView,
    module_classes: Seq<(String, usize)>,
    subclasses: Seq<(String, usize)>,
)
    ensures
        !progressed(
            g,
            f,
            schema_names(f.classes@, f.classes@.len()),
            resolution(g, f, w, module_classes, subclasses),
            schema_names(f.classes@, f.classes@.len()).len(),
        ),
{
    let schema = schema_names(f.classes@, f.classes@.len());
    let first = resolved_at_first(
        g,
        f,
        lookup_view(w, module_classes, subclasses),
        schema,
        schema.len(),
    );
    lemma_unresolved_at_most(schema, first, schema.len());
    lemma_settles(g, f, schema, first, schema.len());
}

/// The names that the runtime binds itself.
pub open spec fn is_reserved(name: Seq<char>) -> bool {
    name == "llm_query"@ || name == "llm_query_batched"@ || name == "SUBMIT"@
}

pub open spec fn reserved_message(name: Seq<char>) -> Seq<char> {
    "RLM input field '"@ + name
        + "' conflicts with reserved runtime binding. Rename this field (reserved names: llm_query, llm_query_batched, SUBMIT)."@
}

/// What the start of the setup gives: an error for the first input with a reserved name, or else
/// what is learned from the inputs.
pub open spec fn setup_started(g: PyGraph, inputs: Seq<(String, Option<usize>)>, i: int) -> Result<
    SurveyView,
    Seq<char>,
>
    decreases inputs.len() - i,
{
    if i < 0 || i >= inputs.len() {
        py_walk::surveyed(g, inputs, inputs.len())
    } else if is_reserved(inputs[i].0@) {
        Err(reserved_message(inputs[i].0@))
    } else {
        setup_started(g, inputs, i + 1)
    }
}

/// Starts the setup of an interpreter: the inputs, by name, are objects of the graph.
pub fn begin_interpreter_setup(g: &PyGraph, inputs: &Vec<(String, Option<usize>)>) -> (r: Result<
    Survey,
    String,
>)
    requires
        g.wf(),
        forall|i: int|
            0 <= i < inputs@.len() ==> ((#[trigger] inputs@[i]).1 matches Some(id) ==> id
                < g.objects@.len()),
    ensures
        match r {
            Ok(s) => s.wf(*g) && setup_started(*g, inputs@, 0) == Ok::<SurveyView, Seq<char>>(s@),
            Err(e) => setup_started(*g, inputs@, 0) == Err::<SurveyView, Seq<char>>(e@),
        },
{
    let mut i: usize = 0;
    while i < inputs.len()
        invariant
            i <= inputs@.len(),
            setup_started(*g, inputs@, 0) == setup_started(*g, inputs@, i as int),
        decreases inputs@.len() - i,
    {
        let name = inputs[i].0.as_str();
        if text::text_eq(name, "llm_query") || text::text_eq(name, "llm_query_batched")
            || text::text_eq(name, "SUBMIT") {
            let mut message = "RLM input field '".to_owned();
            message.append(name);
            message.append(
                "' conflicts with reserved runtime binding. Rename this field (reserved names: llm_query, llm_query_batched, SUBMIT).",
            );
            return Err(message);
        }
        i += 1;
    }
    collect_methods_by_var(g, inputs)
}

/// The names of the first `n` inputs that have a value.
pub open spec fn given_names(inputs: Seq<(String, Option<usize>)>, n: nat) -> Seq<Seq<char>>
    decreases n,
{
    if n == 0 || n > inputs.len() {
        Seq::empty()
    } else if inputs[n - 1].1 is Some {
        given_names(inputs, (n - 1) as nat).push(inputs[n - 1].0@)
    } else {
        given_names(inputs, (n - 1) as nat)
    }
}

/// What is bound besides the inputs: the queries of a second model where there is one, and the
/// call that hands in the output.
pub open spec fn bound_names(with_tools: bool) -> Seq<Seq<char>> {
    if with_tools {
        seq!["llm_query"@, "llm_query_batched"@, "SUBMIT"@]
    } else {
        seq!["SUBMIT"@]
    }
}

/// The global names of an interpreter, in the order in which they are bound.
pub fn global_names(inputs: &Vec<(String, Option<usize>)>, with_tools: bool) -> (r: Vec<String>)
    ensures
        text::views(r@) == given_names(inputs@, inputs@.len()) + bound_names(with_tools),
{
    let mut out: Vec<String> = Vec::new();
    let mut i: usize = 0;
    proof {
        assert(text::views(out@) =~= Seq::empty());
    }
    while i < inputs.len()
        invariant
            i <= inputs@.len(),
            text::views(out@) == given_names(inputs@, i as nat),
        decreases inputs@.len() - i,
    {
        if inputs[i].1.is_some() {
            text::push_line(&mut out, inputs[i].0.clone());
        }
        i += 1;
    }
    let ghost given = text::views(out@);
    if with_tools {
        text::push_line(&mut out, "llm_query".to_owned());
        text::push_line(&mut out, "llm_query_batched".to_owned());
    }
    text::push_line(&mut out, "SUBMIT".to_owned());
    proof {
        assert(text::views(out@) =~= given + bound_names(with_tools));
    }
    out
}

/// Ends the setup of an interpreter with the methods by type.
pub fn finish_interpreter_setup(
    g: &PyGraph,
    f: &OutputFormat,
    survey: Survey,
    module_classes: &Vec<(String, usize)>,
    subclasses: &Vec<(String, usize)>,
) -> (r: Result<InterpreterSetup, String>)
    requires
        g.wf(),
        survey.wf(*g),
        entries_within(module_classes@, g.classes@.len()),
        entries_within(subclasses@, g.classes@.len()),
    ensures
        match r {
            Ok(s) => py_walk::methods_map(s.methods_by_var@) == survey@.methods_by_var
                && methods_by_type(*g, *f, survey@.walk, module_classes@, subclasses@) == Ok::<
                Map<Seq<char>, Seq<MethodView>>,
                Seq<char>,
            >(py_walk::methods_map(s.methods_by_type@)),
            Err(e) => methods_by_type(*g, *f, survey@.walk, module_classes@, subclasses@) == Err::<
                Map<Seq<char>, Seq<MethodView>>,
                Seq<char>,
            >(e@),
        },
{
    match collect_methods_for_schema_types(g, f, &survey.walk, module_classes, subclasses) {
        Ok(methods_by_type) => Ok(
            InterpreterSetup { methods_by_var: survey.methods_by_var, methods_by_type },
        ),
        Err(e) => Err(e),
    }
}

proof fn lemma_inserted_name(list: Seq<Seq<char>>, name: Seq<char>, other: Seq<char>)
    ensures
        names::insert_name(list, name).contains(name),
        list.contains(other) ==> names::insert_name(list, name).contains(other),
        names::insert_name(list, name).contains(other) ==> other == name || list.contains(other),
    decreases list.len(),
{
    let all = names::insert_name(list, name);
    if list.len() == 0 || text::lex_less(list.last(), name) {
        assert(all[list.len() as int] == name);
        if list.contains(other) {
            let i = list.index_of(other);
            assert(all[i] == other);
        }
        if all.contains(other) {
            let i = all.index_of(other);
            if i < list.len() {
                assert(list[i] == other);
            }
        }
    } else if list.last() == name {
        assert(list[list.len() - 1] == name);
    } else {
        let short = list.drop_last();
        let before = names::insert_name(short, name);
        lemma_inserted_name(short, name, other);
        let k = before.index_of(name);
        assert(all[k] == name);
        assert(all[before.len() as int] == list.last());
        if list.contains(other) {
            let i = list.index_of(other);
            if i < short.len() {
                assert(short[i] == other);
                let j = before.index_of(other);
                assert(all[j] == other);
            }
        }
        if all.contains(other) {
            let i = all.index_of(other);
            if i < before.len() {
                assert(before[i] == other);
                if short.contains(other) {
                    let j = short.index_of(other);
                    assert(list[j] == other);
                }
            } else {
                assert(list[list.len() - 1] == other);
            }
        }
    }
}

proof fn lemma_class_is_named(classes: Seq<ClassDef>, n: nat, i: int)
    requires
        0 <= i < n <= classes.len(),
    ensures
        schema_names(classes, n).contains(classes[i].name.rendered@),
    decreases n,
{
    let before = schema_names(classes, (n - 1) as nat);
    lemma_inserted_name(before, classes[n - 1].name.rendered@, classes[i].name.rendered@);
    if i < n - 1 {
        lemma_class_is_named(classes, (n - 1) as nat, i);
    }
}

proof fn lemma_listed_methods(
    g: PyGraph,
    f: OutputFormat,
    w: WalkView,
    s: ResolvedView,
    schema: Seq<Seq<char>>,
    n: nat,
    k: int,
    name: Seq<char>,
)
    requires
        n <= schema.len(),
        with_schema_methods(g, f, w, s, schema, n) is Ok,
    ensures
        0 <= k < n ==> with_schema_methods(g, f, w, s, schema, n)->Ok_0.dom().contains(schema[k]),
        w.methods.dom().contains(name) ==> with_schema_methods(
            g,
            f,
            w,
            s,
            schema,
            n,
        )->Ok_0.dom().contains(name),
        w.methods.dom().contains(name) && !is_synthetic(f, w.classes, name)
            ==> with_schema_methods(g, f, w, s, schema, n)->Ok_0[name] == w.methods[name],
        with_schema_methods(g, f, w, s, schema, n)->Ok_0.dom().contains(name)
            ==> w.methods.dom().contains(name) || schema.contains(name),
    decreases n,
{
    if n > 0 {
        lemma_listed_methods(g, f, w, s, schema, (n - 1) as nat, k, name);
        assert(schema.contains(schema[n - 1]));
    }
}

/// Every class of the schema has an entry, every type that was seen keeps its methods unless it was
/// made up for the schema, and there is no other entry.
pub proof fn types_of_the_schema_have_an_entry(
    g: &PyGraph,
    f: &OutputFormat,
    w: &Walk,
    module_classes: &Vec<(String, usize)>,
    subclasses: &Vec<(String, usize)>,
    m: Vec<(String, Vec<MethodSignature>)>,
    i: int,
    name: Seq<char>,
)
    requires
        g.wf(),
        call_ensures(
            collect_methods_for_schema_types,
            (g, f, w, module_classes, subclasses),
            Ok::<Vec<(String, Vec<MethodSignature>)>, String>(m),
        ),
    ensures
        0 <= i < f.classes@.len() ==> py_walk::methods_map(m@).dom().contains(
            f.classes@[i].name.rendered@,
        ),
        w@.methods.dom().contains(name) ==> py_walk::methods_map(m@).dom().contains(name),
        w@.methods.dom().contains(name) && !is_synthetic(*f, w@.classes, name)
            ==> py_walk::methods_map(m@)[name] == w@.methods[name],
        py_walk::methods_map(m@).dom().contains(name) ==> w@.methods.dom().contains(name)
            || schema_names(f.classes@, f.classes@.len()).contains(name),
{
    let schema = schema_names(f.classes@, f.classes@.len());
    let s = resolution(*g, *f, w@, module_classes@, subclasses@);
    lemma_listed_methods(*g, *f, w@, s, schema, schema.len(), 0, name);
    if 0 <= i < f.classes@.len() {
        lemma_class_is_named(f.classes@, f.classes@.len(), i);
        let k = schema.index_of(f.classes@[i].name.rendered@);
        lemma_listed_methods(*g, *f, w@, s, schema, schema.len(), k, name);
        assert(schema[k] == f.classes@[i].name.rendered@);
    }
}

} // verus!
