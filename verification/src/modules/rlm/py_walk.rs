//! The walk over the objects that the inputs reach, and the types seen on it.

use vstd::prelude::*;

use crate::modules::rlm::py_methods;
use crate::modules::rlm::py_methods::{collect_visible_methods, MethodView, RawMethod};
use crate::modules::rlm::runtime::MethodSignature;
use crate::modules::rlm::values::PyKind;
use crate::names;
use crate::text;

verus! {

/// How many objects lie on a path of the walk at most.
pub const MAX_METHOD_COLLECTION_OBJECTS: usize = 9;

/// How many items of a list, a tuple or a dict are walked.
pub const MAX_METHOD_COLLECTION_ITEMS: usize = 12;

/// A class. `members` holds its routines, or why they could not be listed.
#[derive(Debug)]
pub struct PyClass {
    pub name: Option<String>,
    pub module: Option<String>,
    pub members: Result<Vec<RawMethod>, String>,
}

/// An attribute that a class names. `value` is the object that an instance has there, if any.
#[derive(Debug)]
pub struct Attribute {
    pub name: String,
    pub value: Option<usize>,
}

/// An object, with the objects that it holds. Objects and classes are given by position.
#[derive(Debug)]
pub struct GraphObject {
    pub kind: PyKind,
    pub class: usize,
    pub callable: bool,
    pub items: Vec<usize>,
    pub entries: Vec<(usize, usize)>,
    pub own_values: Vec<usize>,
    pub class_attributes: Vec<Attribute>,
    pub annotations: Vec<Attribute>,
    pub fields: Vec<(String, usize)>,
}

#[derive(Debug)]
pub struct PyGraph {
    pub classes: Vec<PyClass>,
    pub objects: Vec<GraphObject>,
}

pub open spec fn attributes_within(a: Seq<Attribute>, n: nat) -> bool {
    forall|i: int| 0 <= i < a.len() ==> ((#[trigger] a[i]).value matches Some(v) ==> v < n)
}

pub open spec fn object_within(o: GraphObject, classes: nat, n: nat) -> bool {
    &&& o.class < classes
    &&& forall|i: int| 0 <= i < o.items@.len() ==> #[trigger] o.items@[i] < n
    &&& forall|i: int|
        0 <= i < o.entries@.len() ==> (#[trigger] o.entries@[i]).0 < n && o.entries@[i].1 < n
    &&& forall|i: int| 0 <= i < o.own_values@.len() ==> #[trigger] o.own_values@[i] < n
    &&& attributes_within(o.class_attributes@, n)
    &&& attributes_within(o.annotations@, n)
    &&& forall|i: int| 0 <= i < o.fields@.len() ==> (#[trigger] o.fields@[i]).1 < n
}

impl PyGraph {
    /// Every position that an object gives is one of the graph.
    pub open spec fn wf(self) -> bool {
        forall|i: int|
            0 <= i < self.objects@.len() ==> object_within(
                #[trigger] self.objects@[i],
                self.classes@.len(),
                self.objects@.len(),
            )
    }
}

/// The values of the first `n` attributes that are walked: those that are there, whose name does
/// not begin with two underscores and, among those of the class, that cannot be called.
pub open spec fn attribute_values(
    g: PyGraph,
    a: Seq<Attribute>,
    skip_callable: bool,
    n: nat,
) -> Seq<usize>
    decreases n,
{
    if n == 0 || n > a.len() {
        Seq::empty()
    } else {
        let before = attribute_values(g, a, skip_callable, (n - 1) as nat);
        match a[n - 1].value {
            Some(v) => if text::has_prefix(a[n - 1].name@, "__"@) || (skip_callable
                && g.objects@[v as int].callable) {
                before
            } else {
                before.push(v)
            },
            None => before,
        }
    }
}

/// The keys and values of the first `n` entries.
pub open spec fn entry_values(e: Seq<(usize, usize)>, n: nat) -> Seq<usize>
    decreases n,
{
    if n == 0 || n > e.len() {
        Seq::empty()
    } else {
        entry_values(e, (n - 1) as nat).push(e[n - 1].0).push(e[n - 1].1)
    }
}

pub open spec fn at_most(n: nat) -> nat {
    if n < MAX_METHOD_COLLECTION_ITEMS as nat {
        n
    } else {
        MAX_METHOD_COLLECTION_ITEMS as nat
    }
}

/// The objects that the walk goes on to from an object, in order.
pub open spec fn children(g: PyGraph, id: usize) -> Seq<usize> {
    let o = g.objects@[id as int];
    match o.kind {
        PyKind::Text | PyKind::Bool | PyKind::Int | PyKind::Float => Seq::empty(),
        PyKind::List | PyKind::Tuple => o.items@.take(at_most(o.items@.len()) as int),
        PyKind::Dict => entry_values(o.entries@, at_most(o.entries@.len())),
        _ => o.own_values@ + attribute_values(
            g,
            o.class_attributes@,
            true,
            o.class_attributes@.len(),
        ) + attribute_values(g, o.annotations@, false, o.annotations@.len()),
    }
}

fn push_attribute_values(
    g: &PyGraph,
    a: &Vec<Attribute>,
    skip_callable: bool,
    out: &mut Vec<usize>,
)
    requires
        attributes_within(a@, g.objects@.len()),
        forall|i: int| 0 <= i < old(out)@.len() ==> #[trigger] old(out)@[i] < g.objects@.len(),
    ensures
        final(out)@ == old(out)@ + attribute_values(*g, a@, skip_callable, a@.len()),
        forall|i: int| 0 <= i < final(out)@.len() ==> #[trigger] final(out)@[i] < g.objects@.len(),
{
    let ghost start = out@;
    let mut i: usize = 0;
    proof {
        assert(out@ =~= start + attribute_values(*g, a@, skip_callable, 0));
    }
    while i < a.len()
        invariant
            i <= a@.len(),
            attributes_within(a@, g.objects@.len()),
            out@ == start + attribute_values(*g, a@, skip_callable, i as nat),
            forall|k: int| 0 <= k < out@.len() ==> #[trigger] out@[k] < g.objects@.len(),
        decreases a@.len() - i,
    {
        let ghost prior = out@;
        match a[i].value {
            Some(v) => {
                if !text::starts_with_str(a[i].name.as_str(), "__") && !(skip_callable
                    && g.objects[v].callable) {
                    out.push(v);
                    proof {
                        assert(out@ =~= start + attribute_values(
                            *g,
                            a@,
                            skip_callable,
                            i as nat,
                        ).push(v));
                    }
                }
            },
            None => {},
        }
        i += 1;
    }
}

/// The objects that the walk goes on to from an object.
fn children_of(g: &PyGraph, id: usize) -> (r: Vec<usize>)
    requires
        g.wf(),
        id < g.objects@.len(),
    ensures
        r@ == children(*g, id),
        forall|i: int| 0 <= i < r@.len() ==> #[trigger] r@[i] < g.objects@.len(),
{
    let o = &g.objects[id];
    let mut out: Vec<usize> = Vec::new();
    proof {
        assert(object_within(*o, g.classes@.len(), g.objects@.len()));
    }
    match o.kind {
        PyKind::Text | PyKind::Bool | PyKind::Int | PyKind::Float => {},
        PyKind::List | PyKind::Tuple => {
            let mut i: usize = 0;
            while i < o.items.len() && i < MAX_METHOD_COLLECTION_ITEMS
                invariant
                    i <= at_most(o.items@.len()),
                    out@ == o.items@.take(i as int),
                    forall|k: int| 0 <= k < o.items@.len() ==> #[trigger] o.items@[k]
                        < g.objects@.len(),
                decreases o.items@.len() - i,
            {
                out.push(o.items[i]);
                i += 1;
                proof {
                    assert(out@ =~= o.items@.take(i as int));
                }
            }
        },
        PyKind::Dict => {
            let mut i: usize = 0;
            while i < o.entries.len() && i < MAX_METHOD_COLLECTION_ITEMS
                invariant
                    i <= at_most(o.entries@.len()),
                    out@ == entry_values(o.entries@, i as nat),
                    forall|k: int| 0 <= k < out@.len() ==> #[trigger] out@[k] < g.objects@.len(),
                    forall|k: int|
                        0 <= k < o.entries@.len() ==> (#[trigger] o.entries@[k]).0
                            < g.objects@.len() && o.entries@[k].1 < g.objects@.len(),
                decreases o.entries@.len() - i,
            {
                let e = &o.entries[i];
                out.push(e.0);
                out.push(e.1);
                i += 1;
            }
        },
        _ => {
            let mut i: usize = 0;
            while i < o.own_values.len()
                invariant
                    i <= o.own_values@.len(),
                    out@ == o.own_values@.take(i as int),
                    forall|k: int| 0 <= k < o.own_values@.len() ==> #[trigger] o.own_values@[k]
                        < g.objects@.len(),
                decreases o.own_values@.len() - i,
            {
                out.push(o.own_values[i]);
                i += 1;
                proof {
                    assert(out@ =~= o.own_values@.take(i as int));
                }
            }
            proof {
                assert(out@ =~= o.own_values@);
            }
            push_attribute_values(g, &o.class_attributes, true, &mut out);
            push_attribute_values(g, &o.annotations, false, &mut out);
        },
    }
    out
}

/// Methods by name.
pub open spec fn methods_map(e: Seq<(String, Vec<MethodSignature>)>) -> Map<
    Seq<char>,
    Seq<MethodView>,
> {
    names::map_of(e).map_values(|v: Vec<MethodSignature>| py_methods::method_views(v@))
}

/// Puts methods under a name.
pub fn put_methods(
    e: &mut Vec<(String, Vec<MethodSignature>)>,
    name: &str,
    methods: Vec<MethodSignature>,
)
    requires
        names::sorted_names(old(e)@),
    ensures
        names::sorted_names(final(e)@),
        methods_map(final(e)@) == methods_map(old(e)@).insert(
            name@,
            py_methods::method_views(methods@),
        ),
{
    let ghost prior = methods_map(e@);
    let ghost shown = py_methods::method_views(methods@);
    names::put(e, name.to_owned(), methods);
    proof {
        assert(methods_map(e@) =~= prior.insert(name@, shown));
    }
}

/// What the walk has seen: the objects, the methods of each type by name, the first class and the
/// first instance of each name, and the modules of the classes in order.
#[derive(Debug)]
pub struct Walk {
    pub visited: Vec<bool>,
    pub methods: Vec<(String, Vec<MethodSignature>)>,
    pub classes: Vec<(String, usize)>,
    pub instances: Vec<(String, usize)>,
    pub modules: Vec<String>,
}

#[verifier::ext_equal]
pub struct WalkView {
    pub visited: Seq<bool>,
    pub methods: Map<Seq<char>, Seq<MethodView>>,
    pub classes: Map<Seq<char>, usize>,
    pub instances: Map<Seq<char>, usize>,
    pub modules: Seq<Seq<char>>,
}

impl View for Walk {
    type V = WalkView;

    open spec fn view(&self) -> WalkView {
        WalkView {
            visited: self.visited@,
            methods: methods_map(self.methods@),
            classes: names::map_of(self.classes@),
            instances: names::map_of(self.instances@),
            modules: text::views(self.modules@),
        }
    }
}

impl Walk {
    pub open spec fn wf(self, g: PyGraph) -> bool {
        &&& self.visited@.len() == g.objects@.len()
        &&& names::sorted_names(self.methods@)
        &&& names::sorted_names(self.classes@)
        &&& names::sorted_names(self.instances@)
        &&& self@.within(g)
    }
}

impl WalkView {
    /// The classes and instances are those of the graph.
    pub open spec fn within(self, g: PyGraph) -> bool {
        &&& forall|n: Seq<char>| #[trigger]
            self.classes.dom().contains(n) ==> self.classes[n] < g.classes@.len()
        &&& forall|n: Seq<char>| #[trigger]
            self.instances.dom().contains(n) ==> self.instances[n] < g.objects@.len()
    }

    pub open spec fn nothing(objects: nat) -> WalkView {
        WalkView {
            visited: Seq::new(objects, |i: int| false),
            methods: Map::empty(),
            classes: Map::empty(),
            instances: Map::empty(),
            modules: Seq::empty(),
        }
    }
}

/// The name that the type of an object goes by.
pub open spec fn class_name(c: PyClass) -> Seq<char> {
    text::or_text(c.name, "<unknown>"@)
}

/// What is noted of an object when the walk comes to it. The error is that of its class.
pub open spec fn noted(g: PyGraph, id: usize, s: WalkView) -> Result<WalkView, Seq<char>> {
    let o = g.objects@[id as int];
    let c = g.classes@[o.class as int];
    let name = class_name(c);
    let rest = WalkView {
        visited: s.visited.update(id as int, true),
        methods: s.methods,
        classes: match c.name {
            Some(n) => names::with_new(s.classes, n@, o.class),
            None => s.classes,
        },
        instances: names::with_new(s.instances, name, id),
        modules: match c.module {
            Some(m) => names::insert_name(s.modules, m@),
            None => s.modules,
        },
    };
    if s.methods.dom().contains(name) {
        Ok(rest)
    } else {
        match c.members {
            Ok(m) => Ok(
                WalkView {
                    methods: s.methods.insert(name, py_methods::visible_methods(m@)),
                    ..rest
                },
            ),
            Err(e) => Err(e@),
        }
    }
}

/// What has been seen after the walk from an object, over paths of at most `left` objects.
pub open spec fn walked(g: PyGraph, id: usize, left: nat, s: WalkView) -> Result<
    WalkView,
    Seq<char>,
>
    decreases left, 0nat,
{
    if left == 0 || s.visited[id as int] {
        Ok(s)
    } else {
        match noted(g, id, s) {
            Ok(t) => walked_all(
                g,
                children(g, id),
                children(g, id).len(),
                (left - 1) as nat,
                t,
            ),
            Err(e) => Err(e),
        }
    }
}

/// What has been seen after the walks from the first `n` objects of a list, one after the other.
pub open spec fn walked_all(
    g: PyGraph,
    ids: Seq<usize>,
    n: nat,
    left: nat,
    s: WalkView,
) -> Result<WalkView, Seq<char>>
    decreases left, n + 1,
{
    if n == 0 {
        Ok(s)
    } else {
        match walked_all(g, ids, (n - 1) as nat, left, s) {
            Ok(t) => walked(g, ids[n - 1], left, t),
            Err(e) => Err(e),
        }
    }
}

proof fn lemma_walk_error(g: PyGraph, ids: Seq<usize>, a: nat, b: nat, left: nat, s: WalkView)
    requires
        a <= b,
        walked_all(g, ids, a, left, s) is Err,
    ensures
        walked_all(g, ids, b, left, s) == walked_all(g, ids, a, left, s),
    decreases b,
{
    if a < b {
        lemma_walk_error(g, ids, a, (b - 1) as nat, left, s);
    }
}

/// What a function that walks on makes of the state.
pub open spec fn walk_result(
    r: Result<(), String>,
    now: WalkView,
    owed: Result<WalkView, Seq<char>>,
) -> bool {
    match r {
        Ok(_) => owed == Ok::<WalkView, Seq<char>>(now),
        Err(e) => owed == Err::<WalkView, Seq<char>>(e@),
    }
}

fn note_object(g: &PyGraph, id: usize, s: &mut Walk) -> (r: Result<(), String>)
    requires
        g.wf(),
        id < g.objects@.len(),
        old(s).wf(*g),
    ensures
        final(s).wf(*g),
        walk_result(r, final(s)@, noted(*g, id, old(s)@)),
{
    let ghost prior = s@;
    let o = &g.objects[id];
    proof {
        assert(object_within(*o, g.classes@.len(), g.objects@.len()));
    }
    let c = &g.classes[o.class];
    let name = match &c.name {
        Some(n) => n.clone(),
        None => "<unknown>".to_owned(),
    };
    if names::get(&s.methods, name.as_str()).is_none() {
        match &c.members {
            Ok(m) => {
                let methods = collect_visible_methods(m);
                put_methods(&mut s.methods, name.as_str(), methods);
            },
            Err(e) => {
                return Err(e.clone());
            },
        }
    }
    match &c.module {
        Some(m) => names::add_name(&mut s.modules, m.as_str()),
        None => {},
    }
    match &c.name {
        Some(n) => names::put_new(&mut s.classes, n.as_str(), o.class),
        None => {},
    }
    names::put_new(&mut s.instances, name.as_str(), id);
    s.visited.set(id, true);
    proof {
        assert(noted(*g, id, prior) is Ok);
        assert(s@ =~= noted(*g, id, prior)->Ok_0);
    }
    Ok(())
}

/// Walks from an object, over paths of at most `left` objects.
pub fn collect_methods_for_reachable_types(
    g: &PyGraph,
    id: usize,
    left: usize,
    s: &mut Walk,
) -> (r: Result<(), String>)
    requires
        g.wf(),
        id < g.objects@.len(),
        old(s).wf(*g),
    ensures
        final(s).wf(*g),
        walk_result(r, final(s)@, walked(*g, id, left as nat, old(s)@)),
    decreases left,
{
    if left == 0 || s.visited[id] {
        return Ok(());
    }
    match note_object(g, id, s) {
        Ok(_) => {},
        Err(e) => {
            return Err(e);
        },
    }
    let ids = children_of(g, id);
    let ghost start = s@;
    let mut i: usize = 0;
    while i < ids.len()
        invariant
            g.wf(),
            left > 0,
            s.wf(*g),
            i <= ids@.len(),
            forall|k: int| 0 <= k < ids@.len() ==> #[trigger] ids@[k] < g.objects@.len(),
            ids@ == children(*g, id),
            noted(*g, id, old(s)@) == Ok::<WalkView, Seq<char>>(start),
            !old(s)@.visited[id as int],
            walked_all(*g, ids@, i as nat, (left - 1) as nat, start) == Ok::<
                WalkView,
                Seq<char>,
            >(s@),
        decreases ids@.len() - i,
    {
        match collect_methods_for_reachable_types(g, ids[i], left - 1, s) {
            Ok(_) => {},
            Err(e) => {
                proof {
                    lemma_walk_error(
                        *g,
                        ids@,
                        (i + 1) as nat,
                        ids@.len(),
                        (left - 1) as nat,
                        start,
                    );
                }
                return Err(e);
            },
        }
        i += 1;
    }
    Ok(())
}

/// The methods of the type of an object. Values of the basic types show none.
pub open spec fn object_methods(g: PyGraph, id: usize) -> Result<Seq<MethodView>, Seq<char>> {
    let o = g.objects@[id as int];
    match o.kind {
        PyKind::Text
        | PyKind::Bool
        | PyKind::Int
        | PyKind::Float
        | PyKind::List
        | PyKind::Dict
        | PyKind::Tuple => Ok(Seq::empty()),
        _ => match g.classes@[o.class as int].members {
            Ok(m) => Ok(py_methods::visible_methods(m@)),
            Err(e) => Err(e@),
        },
    }
}

pub fn collect_visible_methods_for_object(g: &PyGraph, id: usize) -> (r: Result<
    Vec<MethodSignature>,
    String,
>)
    requires
        g.wf(),
        id < g.objects@.len(),
    ensures
        match r {
            Ok(m) => object_methods(*g, id) == Ok::<Seq<MethodView>, Seq<char>>(
                py_methods::method_views(m@),
            ),
            Err(e) => object_methods(*g, id) == Err::<Seq<MethodView>, Seq<char>>(e@),
        },
{
    let o = &g.objects[id];
    proof {
        assert(object_within(*o, g.classes@.len(), g.objects@.len()));
    }
    match o.kind {
        PyKind::Text
        | PyKind::Bool
        | PyKind::Int
        | PyKind::Float
        | PyKind::List
        | PyKind::Dict
        | PyKind::Tuple => {
            let none: Vec<MethodSignature> = Vec::new();
            proof {
                assert(py_methods::method_views(none@) =~= Seq::empty());
            }
            Ok(none)
        },
        _ => match &g.classes[o.class].members {
            Ok(m) => Ok(collect_visible_methods(m)),
            Err(e) => Err(e.clone()),
        },
    }
}

/// What is learned from the inputs: the methods by input, and what the walks have seen.
#[derive(Debug)]
pub struct Survey {
    pub methods_by_var: Vec<(String, Vec<MethodSignature>)>,
    pub walk: Walk,
}

#[verifier::ext_equal]
pub struct SurveyView {
    pub methods_by_var: Map<Seq<char>, Seq<MethodView>>,
    pub walk: WalkView,
}

impl View for Survey {
    type V = SurveyView;

    open spec fn view(&self) -> SurveyView {
        SurveyView { methods_by_var: methods_map(self.methods_by_var@), walk: self.walk@ }
    }
}

impl Survey {
    pub open spec fn wf(self, g: PyGraph) -> bool {
        names::sorted_names(self.methods_by_var@) && self.walk.wf(g)
    }
}

/// What is learned from the first `n` inputs. An input without a value is passed over.
pub open spec fn surveyed(g: PyGraph, inputs: Seq<(String, Option<usize>)>, n: nat) -> Result<
    SurveyView,
    Seq<char>,
>
    decreases n,
{
    if n == 0 {
        Ok(
            SurveyView {
                methods_by_var: Map::empty(),
                walk: WalkView::nothing(g.objects@.len()),
            },
        )
    } else {
        match surveyed(g, inputs, (n - 1) as nat) {
            Err(e) => Err(e),
            Ok(s) => match inputs[n - 1].1 {
                None => Ok(s),
                Some(id) => match object_methods(g, id) {
                    Err(e) => Err(e),
                    Ok(m) => match walked(g, id, MAX_METHOD_COLLECTION_OBJECTS as nat, s.walk) {
                        Err(e) => Err(e),
                        Ok(w) => Ok(
                            SurveyView {
                                methods_by_var: s.methods_by_var.insert(inputs[n - 1].0@, m),
                                walk: w,
                            },
                        ),
                    },
                },
            },
        }
    }
}

proof fn lemma_survey_error(g: PyGraph, inputs: Seq<(String, Option<usize>)>, a: nat, b: nat)
    requires
        a <= b,
        surveyed(g, inputs, a) is Err,
    ensures
        surveyed(g, inputs, b) == surveyed(g, inputs, a),
    decreases b,
{
    if a < b {
        lemma_survey_error(g, inputs, a, (b - 1) as nat);
    }
}

fn unvisited(n: usize) -> (r: Vec<bool>)
    ensures
        r@ == Seq::new(n as nat, |i: int| false),
{
    let mut out: Vec<bool> = Vec::new();
    let mut i: usize = 0;
    while i < n
        invariant
            i <= n,
            out@ == Seq::new(i as nat, |k: int| false),
        decreases n - i,
    {
        out.push(false);
        i += 1;
        proof {
            assert(out@ =~= Seq::new(i as nat, |k: int| false));
        }
    }
    out
}

/// Lists the methods of the inputs, and walks from each of them.
pub fn collect_methods_by_var(g: &PyGraph, inputs: &Vec<(String, Option<usize>)>) -> (r: Result<
    Survey,
    String,
>)
    requires
        g.wf(),
        forall|i: int|
            0 <= i < inputs@.len() ==> ((#[trigger] inputs@[i]).1 matches Some(id) ==> id
                < g.objects@.len()),
    ensures
        match r {
            Ok(s) => s.wf(*g) && surveyed(*g, inputs@, inputs@.len()) == Ok::<
                SurveyView,
                Seq<char>,
            >(s@),
            Err(e) => surveyed(*g, inputs@, inputs@.len()) == Err::<SurveyView, Seq<char>>(e@),
        },
{
    let mut s = Survey {
        methods_by_var: Vec::new(),
        walk: Walk {
            visited: unvisited(g.objects.len()),
            methods: Vec::new(),
            classes: Vec::new(),
            instances: Vec::new(),
            modules: Vec::new(),
        },
    };
    proof {
        assert(s@ =~= (SurveyView {
            methods_by_var: Map::empty(),
            walk: WalkView::nothing(g.objects@.len()),
        }));
    }
    let mut i: usize = 0;
    while i < inputs.len()
        invariant
            g.wf(),
            forall|k: int|
                0 <= k < inputs@.len() ==> ((#[trigger] inputs@[k]).1 matches Some(id) ==> id
                    < g.objects@.len()),
            i <= inputs@.len(),
            s.wf(*g),
            surveyed(*g, inputs@, i as nat) == Ok::<SurveyView, Seq<char>>(s@),
        decreases inputs@.len() - i,
    {
        if let Some(id) = inputs[i].1 {
            let ghost prior = s@;
            let methods = match collect_visible_methods_for_object(g, id) {
                Ok(m) => m,
                Err(e) => {
                    proof {
                        lemma_survey_error(*g, inputs@, (i + 1) as nat, inputs@.len());
                    }
                    return Err(e);
                },
            };
            put_methods(&mut s.methods_by_var, inputs[i].0.as_str(), methods);
            match collect_methods_for_reachable_types(
                g,
                id,
                MAX_METHOD_COLLECTION_OBJECTS,
                &mut s.walk,
            ) {
                Ok(_) => {},
                Err(e) => {
                    proof {
                        lemma_survey_error(*g, inputs@, (i + 1) as nat, inputs@.len());
                    }
                    return Err(e);
                },
            }
            proof {
                assert(surveyed(*g, inputs@, (i + 1) as nat) is Ok);
                assert(s@ =~= surveyed(*g, inputs@, (i + 1) as nat)->Ok_0);
            }
        }
        i += 1;
    }
    Ok(s)
}

/// The later state keeps all that the earlier one holds.
pub open spec fn keeps(a: WalkView, b: WalkView) -> bool {
    &&& a.visited.len() == b.visited.len()
    &&& forall|i: int| 0 <= i < a.visited.len() && #[trigger] a.visited[i] ==> b.visited[i]
    &&& forall|n: Seq<char>| #[trigger]
        a.methods.dom().contains(n) ==> b.methods.dom().contains(n) && b.methods[n] == a.methods[n]
    &&& forall|n: Seq<char>| #[trigger]
        a.classes.dom().contains(n) ==> b.classes.dom().contains(n) && b.classes[n] == a.classes[n]
    &&& forall|n: Seq<char>| #[trigger]
        a.instances.dom().contains(n) ==> b.instances.dom().contains(n) && b.instances[n]
            == a.instances[n]
}

proof fn lemma_keeps_transitive(a: WalkView, b: WalkView, c: WalkView)
    requires
        keeps(a, b),
        keeps(b, c),
    ensures
        keeps(a, c),
{
    assert forall|i: int| 0 <= i < a.visited.len() && #[trigger] a.visited[i] implies c.visited[
    i] by {
        assert(b.visited[i]);
    }
}

proof fn lemma_walk_keeps(g: PyGraph, id: usize, left: nat, s: WalkView)
    requires
        id < s.visited.len(),
        s.visited.len() == g.objects@.len(),
        g.wf(),
    ensures
        walked(g, id, left, s) matches Ok(t) ==> keeps(s, t) && (left > 0 ==> t.visited[id as int]),
    decreases left, 0nat,
{
    if left > 0 && !s.visited[id as int] {
        match noted(g, id, s) {
            Ok(t) => {
                assert(keeps(s, t));
                lemma_children_within(g, id);
                lemma_walk_all_keeps(
                    g,
                    children(g, id),
                    children(g, id).len(),
                    (left - 1) as nat,
                    t,
                );
                if let Ok(u) = walked(g, id, left, s) {
                    lemma_keeps_transitive(s, t, u);
                    assert(t.visited[id as int]);
                }
            },
            Err(_) => {},
        }
    }
}

proof fn lemma_walk_all_keeps(g: PyGraph, ids: Seq<usize>, n: nat, left: nat, s: WalkView)
    requires
        n <= ids.len(),
        forall|i: int| 0 <= i < ids.len() ==> #[trigger] ids[i] < s.visited.len(),
        s.visited.len() == g.objects@.len(),
        g.wf(),
    ensures
        walked_all(g, ids, n, left, s) matches Ok(t) ==> keeps(s, t),
    decreases left, n + 1,
{
    if n > 0 {
        lemma_walk_all_keeps(g, ids, (n - 1) as nat, left, s);
        match walked_all(g, ids, (n - 1) as nat, left, s) {
            Ok(t) => {
                assert(ids[n - 1] < s.visited.len());
                lemma_walk_keeps(g, ids[n - 1], left, t);
                if let Ok(u) = walked_all(g, ids, n, left, s) {
                    lemma_keeps_transitive(s, t, u);
                }
            },
            Err(_) => {},
        }
    }
}

proof fn lemma_attributes_within(g: PyGraph, a: Seq<Attribute>, skip: bool, n: nat)
    requires
        attributes_within(a, g.objects@.len()),
        n <= a.len(),
    ensures
        forall|i: int|
            0 <= i < attribute_values(g, a, skip, n).len() ==> #[trigger] attribute_values(
                g,
                a,
                skip,
                n,
            )[i] < g.objects@.len(),
    decreases n,
{
    if n > 0 {
        lemma_attributes_within(g, a, skip, (n - 1) as nat);
        let before = attribute_values(g, a, skip, (n - 1) as nat);
        let now = attribute_values(g, a, skip, n);
        assert forall|i: int| 0 <= i < now.len() implies #[trigger] now[i] < g.objects@.len() by {
            if i < before.len() {
                assert(now[i] == before[i]);
            } else {
                assert(a[n - 1].value == Some(now[i]));
            }
        }
    }
}

proof fn lemma_entries_within(e: Seq<(usize, usize)>, n: nat, bound: nat)
    requires
        forall|i: int| 0 <= i < e.len() ==> (#[trigger] e[i]).0 < bound && e[i].1 < bound,
        n <= e.len(),
    ensures
        forall|i: int|
            0 <= i < entry_values(e, n).len() ==> #[trigger] entry_values(e, n)[i] < bound,
    decreases n,
{
    if n > 0 {
        lemma_entries_within(e, (n - 1) as nat, bound);
        let before = entry_values(e, (n - 1) as nat);
        let now = entry_values(e, n);
        assert forall|i: int| 0 <= i < now.len() implies #[trigger] now[i] < bound by {
            if i < before.len() {
                assert(now[i] == before[i]);
            } else {
                assert(now[i] == e[n - 1].0 || now[i] == e[n - 1].1);
            }
        }
    }
}

proof fn lemma_children_within(g: PyGraph, id: usize)
    requires
        g.wf(),
        id < g.objects@.len(),
    ensures
        forall|i: int|
            0 <= i < children(g, id).len() ==> #[trigger] children(g, id)[i] < g.objects@.len(),
{
    let o = g.objects@[id as int];
    assert(object_within(o, g.classes@.len(), g.objects@.len()));
    lemma_attributes_within(g, o.class_attributes@, true, o.class_attributes@.len());
    lemma_attributes_within(g, o.annotations@, false, o.annotations@.len());
    lemma_entries_within(o.entries@, at_most(o.entries@.len()), g.objects@.len());
    let all = children(g, id);
    assert forall|i: int| 0 <= i < all.len() implies #[trigger] all[i] < g.objects@.len() by {
        match o.kind {
            PyKind::List | PyKind::Tuple => {
                assert(all[i] == o.items@[i]);
            },
            PyKind::Dict | PyKind::Text | PyKind::Bool | PyKind::Int | PyKind::Float => {},
            _ => {
                let a = attribute_values(
                    g,
                    o.class_attributes@,
                    true,
                    o.class_attributes@.len(),
                );
                let b = attribute_values(g, o.annotations@, false, o.annotations@.len());
                let k = o.own_values@.len();
                if i < k {
                    assert(all[i] == o.own_values@[i]);
                } else if i < k + a.len() {
                    assert(all[i] == a[i - k]);
                } else {
                    assert(all[i] == b[i - k - a.len()]);
                }
            },
        }
    }
}

/// A walk that succeeds visits the object that it starts from and keeps all that was seen before
/// it: objects stay visited, and of each type the first methods, class and instance stay.
pub proof fn walks_keep_what_was_seen(g: PyGraph, id: usize, left: nat, s: WalkView)
    requires
        g.wf(),
        id < g.objects@.len(),
        s.visited.len() == g.objects@.len(),
        walked(g, id, left, s) is Ok,
    ensures
        keeps(s, walked(g, id, left, s)->Ok_0),
        left > 0 ==> walked(g, id, left, s)->Ok_0.visited[id as int],
{
    lemma_walk_keeps(g, id, left, s);
}

proof fn lemma_survey_visits(g: PyGraph, inputs: Seq<(String, Option<usize>)>, n: nat, i: int)
    requires
        g.wf(),
        n <= inputs.len(),
        forall|k: int|
            0 <= k < inputs.len() ==> ((#[trigger] inputs[k]).1 matches Some(id) ==> id
                < g.objects@.len()),
        surveyed(g, inputs, n) is Ok,
    ensures
        surveyed(g, inputs, n)->Ok_0.walk.visited.len() == g.objects@.len(),
        0 <= i < n && inputs[i].1 is Some ==> {
            &&& surveyed(g, inputs, n)->Ok_0.walk.visited[inputs[i].1->0 as int]
            &&& surveyed(g, inputs, n)->Ok_0.methods_by_var.dom().contains(inputs[i].0@)
            &&& object_methods(g, inputs[i].1->0) is Ok
            &&& (forall|k: int| i < k < n ==> (#[trigger] inputs[k]).0@ != inputs[i].0@)
                ==> surveyed(g, inputs, n)->Ok_0.methods_by_var[inputs[i].0@] == object_methods(
                g,
                inputs[i].1->0,
            )->Ok_0
        },
    decreases n,
{
    if n > 0 {
        lemma_survey_visits(g, inputs, (n - 1) as nat, i);
        let before = surveyed(g, inputs, (n - 1) as nat)->Ok_0;
        if let Some(id) = inputs[n - 1].1 {
            assert(id < g.objects@.len());
            lemma_walk_keeps(g, id, MAX_METHOD_COLLECTION_OBJECTS as nat, before.walk);
            if 0 <= i < n - 1 && inputs[i].1 is Some {
                assert(inputs[i].1->0 < g.objects@.len());
                assert(before.walk.visited[inputs[i].1->0 as int]);
                if forall|k: int| i < k < n ==> (#[trigger] inputs[k]).0@ != inputs[i].0@ {
                    assert(inputs[n - 1].0@ != inputs[i].0@);
                }
            }
        }
    }
}

proof fn lemma_all_are_visited(
    g: PyGraph,
    ids: Seq<usize>,
    n: nat,
    left: nat,
    s: WalkView,
    k: int,
)
    requires
        left > 0,
        0 <= k < n <= ids.len(),
        forall|i: int| 0 <= i < ids.len() ==> #[trigger] ids[i] < s.visited.len(),
        s.visited.len() == g.objects@.len(),
        g.wf(),
        walked_all(g, ids, n, left, s) is Ok,
    ensures
        walked_all(g, ids, n, left, s)->Ok_0.visited[ids[k] as int],
    decreases n,
{
    let t = walked_all(g, ids, (n - 1) as nat, left, s)->Ok_0;
    lemma_walk_all_keeps(g, ids, (n - 1) as nat, left, s);
    assert(ids[n - 1] < s.visited.len());
    lemma_walk_keeps(g, ids[n - 1], left, t);
    if k < n - 1 {
        lemma_all_are_visited(g, ids, (n - 1) as nat, left, s, k);
        assert(ids[k] < s.visited.len());
        assert(t.visited[ids[k] as int]);
    }
}

/// Every input that has a value is walked, and its own methods are known by the name of its variable.
pub proof fn every_input_is_walked(
    g: &PyGraph,
    inputs: &Vec<(String, Option<usize>)>,
    s: Survey,
    i: int,
)
    requires
        g.wf(),
        forall|k: int|
            0 <= k < inputs@.len() ==> ((#[trigger] inputs@[k]).1 matches Some(id) ==> id
                < g.objects@.len()),
        call_ensures(collect_methods_by_var, (g, inputs), Ok::<Survey, String>(s)),
        0 <= i < inputs@.len(),
        inputs@[i].1 is Some,
    ensures
        s@.walk.visited[inputs@[i].1->0 as int],
        s@.methods_by_var.dom().contains(inputs@[i].0@),
        ({
            let o = g.objects@[inputs@[i].1->0 as int];
            o.kind != PyKind::Text && o.kind != PyKind::Bool && o.kind != PyKind::Int && o.kind
                != PyKind::Float && o.kind != PyKind::List && o.kind != PyKind::Dict && o.kind
                != PyKind::Tuple && (forall|k: int|
                i < k < inputs@.len() ==> (#[trigger] inputs@[k]).0@ != inputs@[i].0@) ==> (
            g.classes@[o.class as int].members matches Ok(m)
                && s@.methods_by_var[inputs@[i].0@] == py_methods::visible_methods(m@))
        }),
{
    lemma_survey_visits(*g, inputs@, inputs@.len(), i);
}

/// What an input holds is walked with it: the first items of a list or a tuple, the keys and values
/// of the first entries of a dict, and every value that an object has of its own.
pub proof fn what_an_input_holds_is_walked(
    g: &PyGraph,
    inputs: &Vec<(String, Option<usize>)>,
    s: Survey,
    id: usize,
    k: int,
)
    requires
        g.wf(),
        inputs@.len() == 1,
        inputs@[0].1 == Some(id),
        id < g.objects@.len(),
        call_ensures(collect_methods_by_var, (g, inputs), Ok::<Survey, String>(s)),
        0 <= k,
    ensures
        ({
            let o = g.objects@[id as int];
            &&& (o.kind == PyKind::List || o.kind == PyKind::Tuple) && k < o.items@.len() && k
                < MAX_METHOD_COLLECTION_ITEMS ==> s@.walk.visited[o.items@[k] as int]
            &&& o.kind == PyKind::Dict && k < o.entries@.len() && k < MAX_METHOD_COLLECTION_ITEMS
                ==> s@.walk.visited[o.entries@[k].0 as int] && s@.walk.visited[o.entries@[k].1 as int]
            &&& o.kind != PyKind::Text && o.kind != PyKind::Bool && o.kind != PyKind::Int && o.kind
                != PyKind::Float && o.kind != PyKind::List && o.kind != PyKind::Dict && o.kind
                != PyKind::Tuple && k < o.own_values@.len()
                ==> s@.walk.visited[o.own_values@[k] as int]
        }),
{
    let o = g.objects@[id as int];
    let start = WalkView::nothing(g.objects@.len());
    let ids = children(*g, id);
    let left = (MAX_METHOD_COLLECTION_OBJECTS - 1) as nat;
    assert(inputs@[0].1 == Some(id));
    assert(surveyed(*g, inputs@, 0) is Ok);
    assert(surveyed(*g, inputs@, 1) is Ok);
    assert(s@.walk == walked(*g, id, MAX_METHOD_COLLECTION_OBJECTS as nat, start)->Ok_0);
    assert(!start.visited[id as int]);
    let t = noted(*g, id, start)->Ok_0;
    lemma_children_within(*g, id);
    assert(s@.walk == walked_all(*g, ids, ids.len(), left, t)->Ok_0);
    if (o.kind == PyKind::List || o.kind == PyKind::Tuple) && k < o.items@.len() && k
        < MAX_METHOD_COLLECTION_ITEMS {
        assert(ids[k] == o.items@[k]);
        lemma_all_are_visited(*g, ids, ids.len(), left, t, k);
    }
    if o.kind == PyKind::Dict && k < o.entries@.len() && k < MAX_METHOD_COLLECTION_ITEMS {
        lemma_entry_at(o.entries@, at_most(o.entries@.len()), k);
        lemma_all_are_visited(*g, ids, ids.len(), left, t, 2 * k);
        lemma_all_are_visited(*g, ids, ids.len(), left, t, 2 * k + 1);
    }
    if o.kind != PyKind::Text && o.kind != PyKind::Bool && o.kind != PyKind::Int && o.kind
        != PyKind::Float && o.kind != PyKind::List && o.kind != PyKind::Dict && o.kind
        != PyKind::Tuple && k < o.own_values@.len() {
        assert(ids[k] == o.own_values@[k]);
        lemma_all_are_visited(*g, ids, ids.len(), left, t, k);
    }
}

proof fn lemma_entry_at(e: Seq<(usize, usize)>, n: nat, k: int)
    requires
        n <= e.len(),
    ensures
        entry_values(e, n).len() == 2 * n,
        0 <= k < n ==> entry_values(e, n)[2 * k] == e[k].0 && entry_values(e, n)[2 * k + 1]
            == e[k].1,
    decreases n,
{
    if n > 0 {
        lemma_entry_at(e, (n - 1) as nat, k);
    }
}

} // verus!
