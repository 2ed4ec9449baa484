//! What a model is shown of the variables of the interpreter.

use vstd::prelude::*;

use crate::modules::rlm::types;
use crate::modules::rlm::values::PyKind;
use crate::names;
use crate::text;

verus! {

/// What a variable tells of itself. `first_reprs` are the forms of the first two items of a
/// list; an error is what the interpreter said.
#[derive(Debug)]
pub struct PyShown {
    pub kind: PyKind,
    pub length: Option<usize>,
    pub repr: Result<String, String>,
    pub first_reprs: Vec<Result<String, String>>,
    pub text: Result<String, String>,
    pub class_name: Option<String>,
    pub callable: bool,
}

/// A result by the texts in it.
pub open spec fn result_view(r: Result<String, String>) -> Result<Seq<char>, Seq<char>> {
    match r {
        Ok(t) => Ok(t@),
        Err(e) => Err(e@),
    }
}

/// A text with the paths in it cut down to their last names.
pub open spec fn surface(t: Seq<char>) -> Seq<char> {
    types::shortened(t, ':', "::"@)
}

/// Cuts the paths in a text down to their last names.
pub fn sanitize_python_surface(t: &str) -> (r: String)
    ensures
        r@ == surface(t@),
{
    types::shorten(t, ':', "::")
}

/// The form of a variable, or why there is none.
pub open spec fn repr_of(r: Result<String, String>) -> Result<Seq<char>, Seq<char>> {
    match r {
        Ok(t) => Ok(t@),
        Err(e) => Err("repr() failed: "@ + e@),
    }
}

fn repr_value(r: &Result<String, String>) -> (res: Result<String, String>)
    ensures
        result_view(res) == repr_of(*r),
{
    match r {
        Ok(t) => Ok(t.clone()),
        Err(e) => {
            let mut message = "repr() failed: ".to_owned();
            message.append(e.as_str());
            Err(message)
        },
    }
}

/// How many items there are, none when there is no telling.
pub open spec fn len_or_zero(v: PyShown) -> nat {
    match v.length {
        Some(n) => n as nat,
        None => 0,
    }
}

/// The forms of the first `n` items, cut.
pub open spec fn item_previews(items: Seq<Result<String, String>>, n: nat) -> Result<
    Seq<Seq<char>>,
    Seq<char>,
>
    decreases n,
{
    if n == 0 || n > items.len() {
        Ok(Seq::empty())
    } else {
        match item_previews(items, (n - 1) as nat) {
            Err(e) => Err(e),
            Ok(before) => match repr_of(items[n - 1]) {
                Err(e) => Err(e),
                Ok(t) => Ok(before.push(text::truncated(surface(t), 100))),
            },
        }
    }
}

/// How many items are previewed.
pub open spec fn previewed(v: PyShown) -> nat {
    if v.first_reprs@.len() < 2 {
        v.first_reprs@.len()
    } else {
        2
    }
}

/// How an input variable is shown.
pub open spec fn root_text(v: PyShown) -> Result<Seq<char>, Seq<char>> {
    let n = len_or_zero(v);
    if v.kind == PyKind::List && n > 5 {
        match item_previews(v.first_reprs@, previewed(v)) {
            Err(e) => Err(e),
            Ok(items) => if items.len() == 0 {
                Ok("list("@ + text::decimal(n) + " items)"@)
            } else {
                Ok("["@ + text::join(items, ", "@) + ", ... ("@ + text::decimal(n) + " total)]"@)
            },
        }
    } else {
        match repr_of(v.repr) {
            Err(e) => Err(e),
            Ok(t) => Ok(text::truncated(t, 200)),
        }
    }
}

/// How a container is shown: written out when it is small.
pub open spec fn container_text(v: PyShown, name: Seq<char>) -> Result<Seq<char>, Seq<char>> {
    let n = len_or_zero(v);
    if n <= 5 {
        match repr_of(v.repr) {
            Err(e) => Err(e),
            Ok(t) => Ok(text::truncated(surface(t), 120)),
        }
    } else {
        Ok("<"@ + name + " of "@ + text::decimal(n) + " items>"@)
    }
}

/// How a variable that is no input is shown.
pub open spec fn extra_text(v: PyShown) -> Result<Seq<char>, Seq<char>> {
    match v.kind {
        PyKind::Text => match v.text {
            Ok(t) => Ok(text::debug_text(text::truncated(t@, 50))),
            Err(e) => Err("string extract failed: "@ + e@),
        },
        PyKind::Bool => repr_of(v.repr),
        PyKind::Int => repr_of(v.repr),
        PyKind::Float => repr_of(v.repr),
        PyKind::List => container_text(v, "list"@),
        PyKind::Tuple => container_text(v, "tuple"@),
        PyKind::SetOf => container_text(v, "set"@),
        PyKind::Dict => container_text(v, "dict"@),
        _ => {
            let name = text::or_text(v.class_name, "Object"@);
            match v.length {
                Some(n) => Ok("<"@ + name + ": "@ + text::decimal(n as nat) + " items>"@),
                None => Ok("<"@ + name + ">"@),
            }
        },
    }
}

/// How a variable is shown.
pub open spec fn shown_text(v: PyShown, is_root: bool) -> Result<Seq<char>, Seq<char>> {
    if is_root {
        root_text(v)
    } else {
        extra_text(v)
    }
}

fn preview_items(v: &PyShown) -> (r: Result<Vec<String>, String>)
    ensures
        match r {
            Ok(items) => item_previews(v.first_reprs@, previewed(*v)) == Ok::<
                Seq<Seq<char>>,
                Seq<char>,
            >(text::views(items@)),
            Err(e) => item_previews(v.first_reprs@, previewed(*v)) == Err::<
                Seq<Seq<char>>,
                Seq<char>,
            >(e@),
        },
{
    let mut out: Vec<String> = Vec::new();
    let total = v.first_reprs.len();
    let limit: usize = if total < 2 {
        total
    } else {
        2
    };
    let mut i: usize = 0;
    proof {
        assert(text::views(out@) =~= Seq::empty());
    }
    while i < limit
        invariant
            i <= limit <= v.first_reprs@.len(),
            limit == previewed(*v),
            limit <= 2,
            item_previews(v.first_reprs@, i as nat) == Ok::<Seq<Seq<char>>, Seq<char>>(
                text::views(out@),
            ),
        decreases limit - i,
    {
        match repr_value(&v.first_reprs[i]) {
            Ok(t) => {
                let short = sanitize_python_surface(t.as_str());
                let line = text::truncate_str(short.as_str(), 100);
                text::push_line(&mut out, line);
            },
            Err(e) => {
                proof {
                    if i == 0 && limit == 2 {
                        assert(item_previews(v.first_reprs@, 1) == Err::<
                            Seq<Seq<char>>,
                            Seq<char>,
                        >(e@));
                    }
                }
                return Err(e);
            },
        }
        i += 1;
    }
    Ok(out)
}

fn render_container(v: &PyShown, name: &str) -> (r: Result<String, String>)
    ensures
        result_view(r) == container_text(*v, name@),
{
    let n: usize = match v.length {
        Some(n) => n,
        None => 0,
    };
    if n <= 5 {
        match repr_value(&v.repr) {
            Ok(t) => {
                let short = sanitize_python_surface(t.as_str());
                Ok(text::truncate_str(short.as_str(), 120))
            },
            Err(e) => Err(e),
        }
    } else {
        let mut out = "<".to_owned();
        out.append(name);
        out.append(" of ");
        text::push_decimal(&mut out, n as u64);
        out.append(" items>");
        Ok(out)
    }
}

/// How a variable is shown, or why it cannot be.
pub fn safe_namespace_repr(v: &PyShown, is_root: bool) -> (r: Result<String, String>)
    ensures
        result_view(r) == shown_text(*v, is_root),
{
    let n: usize = match v.length {
        Some(n) => n,
        None => 0,
    };
    if is_root {
        if v.kind == PyKind::List && n > 5 {
            return match preview_items(v) {
                Err(e) => Err(e),
                Ok(items) => {
                    proof {
                        assert(text::views(items@).len() == items@.len());
                    }
                    if items.len() == 0 {
                        let mut out = "list(".to_owned();
                        text::push_decimal(&mut out, n as u64);
                        out.append(" items)");
                        Ok(out)
                    } else {
                        let mut out = "[".to_owned();
                        let joined = text::join_strs(&items, ", ");
                        out.append(joined.as_str());
                        out.append(", ... (");
                        text::push_decimal(&mut out, n as u64);
                        out.append(" total)]");
                        Ok(out)
                    }
                },
            };
        }
        return match repr_value(&v.repr) {
            Ok(t) => Ok(text::truncate_str(t.as_str(), 200)),
            Err(e) => Err(e),
        };
    }
    match v.kind {
        PyKind::Text => match &v.text {
            Ok(t) => {
                let short = text::truncate_str(t.as_str(), 50);
                Ok(text::debug_string(short.as_str()))
            },
            Err(e) => {
                let mut message = "string extract failed: ".to_owned();
                message.append(e.as_str());
                Err(message)
            },
        },
        PyKind::Bool => repr_value(&v.repr),
        PyKind::Int => repr_value(&v.repr),
        PyKind::Float => repr_value(&v.repr),
        PyKind::List => render_container(v, "list"),
        PyKind::Tuple => render_container(v, "tuple"),
        PyKind::SetOf => render_container(v, "set"),
        PyKind::Dict => render_container(v, "dict"),
        _ => {
            let mut out = "<".to_owned();
            match &v.class_name {
                Some(name) => out.append(name.as_str()),
                None => out.append("Object"),
            }
            match v.length {
                Some(n) => {
                    out.append(": ");
                    text::push_decimal(&mut out, n as u64);
                    out.append(" items>");
                },
                None => out.append(">"),
            }
            Ok(out)
        },
    }
}

/// A variable that is no input is shown: it has a name of more than one character that is not
/// private, and is neither a module nor callable.
pub open spec fn included(name: Seq<char>, v: PyShown) -> bool {
    &&& !text::has_prefix(name, "_"@)
    &&& name.len() > 1
    &&& v.kind != PyKind::Module
    &&& !v.callable
}

/// Whether a variable is shown: input variables always are.
pub fn include_in_namespace(name: &str, v: &PyShown, roots: &Vec<String>) -> (r: bool)
    ensures
        r == (text::views(roots@).contains(name@) || included(name@, *v)),
{
    if text::contains_text(roots, name) {
        return true;
    }
    if text::starts_with_str(name, "_") {
        return false;
    }
    let c = text::chars_of(name);
    if c.len() <= 1 {
        return false;
    }
    if v.kind == PyKind::Module {
        return false;
    }
    !v.callable
}

/// The lines of the namespace: names and how they are shown.
pub open spec fn pairs_view(p: Seq<(String, String)>) -> Seq<(Seq<char>, Seq<char>)> {
    Seq::new(p.len(), |i: int| (p[i].0@, p[i].1@))
}

/// The first variable from `from` on with the name, or the number of variables.
pub open spec fn global_index(globals: Seq<(String, PyShown)>, name: Seq<char>, from: int) -> int
    decreases globals.len() - from,
{
    if from >= globals.len() {
        globals.len() as int
    } else if globals[from].0@ == name {
        from
    } else {
        global_index(globals, name, from + 1)
    }
}

fn find_global(globals: &Vec<(String, PyShown)>, name: &str) -> (r: usize)
    ensures
        r == global_index(globals@, name@, 0),
        r <= globals@.len(),
{
    let mut i: usize = 0;
    while i < globals.len()
        invariant
            i <= globals@.len(),
            global_index(globals@, name@, 0) == global_index(globals@, name@, i as int),
        decreases globals@.len() - i,
    {
        if text::text_eq(globals[i].0.as_str(), name) {
            return i;
        }
        i += 1;
    }
    i
}

/// The input variables among the first `n` that are there, in their order.
pub open spec fn roots_shown(roots: Seq<String>, globals: Seq<(String, PyShown)>, n: nat) -> Result<
    Seq<(Seq<char>, Seq<char>)>,
    Seq<char>,
>
    decreases n,
{
    if n == 0 || n > roots.len() {
        Ok(Seq::empty())
    } else {
        match roots_shown(roots, globals, (n - 1) as nat) {
            Err(e) => Err(e),
            Ok(before) => {
                let i = global_index(globals, roots[n - 1]@, 0);
                if 0 <= i < globals.len() {
                    match shown_text(globals[i].1, true) {
                        Err(e) => Err(e),
                        Ok(t) => Ok(before.push((roots[n - 1]@, t))),
                    }
                } else {
                    Ok(before)
                }
            },
        }
    }
}

/// The other variables among the first `n` that are shown.
pub open spec fn extras_shown(
    roots: Seq<Seq<char>>,
    globals: Seq<(String, PyShown)>,
    n: nat,
) -> Result<Seq<(Seq<char>, Seq<char>)>, Seq<char>>
    decreases n,
{
    if n == 0 || n > globals.len() {
        Ok(Seq::empty())
    } else {
        match extras_shown(roots, globals, (n - 1) as nat) {
            Err(e) => Err(e),
            Ok(before) => {
                let g = globals[n - 1];
                if !roots.contains(g.0@) && included(g.0@, g.1) {
                    match shown_text(g.1, false) {
                        Err(e) => Err(e),
                        Ok(t) => Ok(before.push((g.0@, t))),
                    }
                } else {
                    Ok(before)
                }
            },
        }
    }
}

/// Lines in the order of their names.
pub open spec fn by_name(lines: Seq<(Seq<char>, Seq<char>)>) -> Seq<(Seq<char>, Seq<char>)> {
    let order = names::key_order(Seq::new(lines.len(), |i: int| lines[i].0), lines.len());
    Seq::new(order.len(), |i: int| lines[order[i]])
}

/// What is shown of the variables: the input variables, then the others by name.
pub open spec fn snapshot(roots: Seq<String>, globals: Seq<(String, PyShown)>) -> Result<
    Seq<(Seq<char>, Seq<char>)>,
    Seq<char>,
> {
    match roots_shown(roots, globals, roots.len()) {
        Err(e) => Err(e),
        Ok(first) => match extras_shown(text::views(roots), globals, globals.len()) {
            Err(e) => Err(e),
            Ok(extras) => Ok(first + by_name(extras)),
        },
    }
}

proof fn lemma_roots_error(roots: Seq<String>, globals: Seq<(String, PyShown)>, a: nat, b: nat)
    requires
        a <= b <= roots.len(),
        roots_shown(roots, globals, a) is Err,
    ensures
        roots_shown(roots, globals, b) == roots_shown(roots, globals, a),
    decreases b,
{
    if a < b {
        lemma_roots_error(roots, globals, a, (b - 1) as nat);
    }
}

proof fn lemma_extras_error(
    roots: Seq<Seq<char>>,
    globals: Seq<(String, PyShown)>,
    a: nat,
    b: nat,
)
    requires
        a <= b <= globals.len(),
        extras_shown(roots, globals, a) is Err,
    ensures
        extras_shown(roots, globals, b) == extras_shown(roots, globals, a),
    decreases b,
{
    if a < b {
        lemma_extras_error(roots, globals, a, (b - 1) as nat);
    }
}

/// What is shown of the variables, or why it cannot be shown.
pub fn collect_namespace_snapshot(
    globals: &Vec<(String, PyShown)>,
    injected_roots: &Vec<String>,
) -> (r: Result<Vec<(String, String)>, String>)
    ensures
        match r {
            Ok(lines) => snapshot(injected_roots@, globals@) == Ok::<
                Seq<(Seq<char>, Seq<char>)>,
                Seq<char>,
            >(pairs_view(lines@)),
            Err(e) => snapshot(injected_roots@, globals@) == Err::<
                Seq<(Seq<char>, Seq<char>)>,
                Seq<char>,
            >(e@),
        },
{
    let ghost names_view = text::views(injected_roots@);
    let mut out: Vec<(String, String)> = Vec::new();
    let mut i: usize = 0;
    proof {
        assert(pairs_view(out@) =~= Seq::empty());
    }
    while i < injected_roots.len()
        invariant
            i <= injected_roots@.len(),
            roots_shown(injected_roots@, globals@, i as nat) == Ok::<
                Seq<(Seq<char>, Seq<char>)>,
                Seq<char>,
            >(pairs_view(out@)),
        decreases injected_roots@.len() - i,
    {
        let at = find_global(globals, injected_roots[i].as_str());
        if at < globals.len() {
            match safe_namespace_repr(&globals[at].1, true) {
                Ok(t) => {
                    let ghost before = out@;
                    out.push((injected_roots[i].clone(), t));
                    proof {
                        assert(pairs_view(out@) =~= pairs_view(before).push(
                            (injected_roots@[i as int]@, t@),
                        ));
                    }
                },
                Err(e) => {
                    proof {
                        assert(roots_shown(injected_roots@, globals@, (i + 1) as nat) == Err::<
                            Seq<(Seq<char>, Seq<char>)>,
                            Seq<char>,
                        >(e@));
                        lemma_roots_error(
                            injected_roots@,
                            globals@,
                            (i + 1) as nat,
                            injected_roots@.len(),
                        );
                    }
                    return Err(e);
                },
            }
        }
        i += 1;
    }
    let ghost first = pairs_view(out@);
    let mut extras: Vec<(String, String)> = Vec::new();
    let mut k: usize = 0;
    proof {
        assert(pairs_view(extras@) =~= Seq::empty());
    }
    while k < globals.len()
        invariant
            k <= globals@.len(),
            names_view == text::views(injected_roots@),
            roots_shown(injected_roots@, globals@, injected_roots@.len()) == Ok::<
                Seq<(Seq<char>, Seq<char>)>,
                Seq<char>,
            >(first),
            extras_shown(names_view, globals@, k as nat) == Ok::<
                Seq<(Seq<char>, Seq<char>)>,
                Seq<char>,
            >(pairs_view(extras@)),
        decreases globals@.len() - k,
    {
        let name = &globals[k].0;
        let is_root = text::contains_text(injected_roots, name.as_str());
        if !is_root && include_in_namespace(name.as_str(), &globals[k].1, injected_roots) {
            match safe_namespace_repr(&globals[k].1, false) {
                Ok(t) => {
                    let ghost before = extras@;
                    extras.push((name.clone(), t));
                    proof {
                        assert(pairs_view(extras@) =~= pairs_view(before).push((name@, t@)));
                    }
                },
                Err(e) => {
                    proof {
                        assert(extras_shown(names_view, globals@, (k + 1) as nat) == Err::<
                            Seq<(Seq<char>, Seq<char>)>,
                            Seq<char>,
                        >(e@));
                        lemma_extras_error(
                            names_view,
                            globals@,
                            (k + 1) as nat,
                            globals@.len(),
                        );
                    }
                    return Err(e);
                },
            }
        }
        k += 1;
    }
    let ghost all = pairs_view(extras@);
    let order = names::sorted_order(&extras);
    proof {
        assert(names::names_of(extras@) =~= Seq::new(all.len(), |i: int| all[i].0));
    }
    let ghost want = by_name(all);
    let mut j: usize = 0;
    proof {
        assert(pairs_view(out@) =~= first + want.take(0));
    }
    while j < order.len()
        invariant
            j <= order@.len(),
            all == pairs_view(extras@),
            want == by_name(all),
            want.len() == order@.len(),
            forall|m: int| 0 <= m < order@.len() ==> 0 <= #[trigger] order@[m] < extras@.len(),
            forall|m: int|
                0 <= m < order@.len() ==> #[trigger] order@[m] == names::key_order(
                    Seq::new(all.len(), |i: int| all[i].0),
                    all.len(),
                )[m],
            pairs_view(out@) == first + want.take(j as int),
        decreases order@.len() - j,
    {
        let at = order[j];
        let ghost before = out@;
        out.push((extras[at].0.clone(), extras[at].1.clone()));
        proof {
            assert(want[j as int] == all[order@[j as int] as int]);
            assert(pairs_view(out@) =~= pairs_view(before).push(want[j as int]));
            assert(pairs_view(out@) =~= first + want.take(j + 1));
        }
        j += 1;
    }
    proof {
        assert(want.take(j as int) =~= want);
    }
    Ok(out)
}

proof fn lemma_global_index(globals: Seq<(String, PyShown)>, name: Seq<char>, from: int, i: int)
    requires
        0 <= from <= i < globals.len(),
        globals[i].0@ == name,
        forall|j: int| from <= j < i ==> (#[trigger] globals[j]).0@ != name,
    ensures
        global_index(globals, name, from) == i,
    decreases i - from,
{
    if from < i {
        assert(globals[from].0@ != name);
        lemma_global_index(globals, name, from + 1, i);
    }
}

proof fn lemma_root_shown(
    roots: Seq<String>,
    globals: Seq<(String, PyShown)>,
    n: nat,
    k: int,
    i: int,
)
    requires
        0 <= k < n <= roots.len(),
        roots_shown(roots, globals, n) is Ok,
        global_index(globals, roots[k]@, 0) == i,
        0 <= i < globals.len(),
    ensures
        shown_text(globals[i].1, true) is Ok,
        roots_shown(roots, globals, n)->Ok_0.contains(
            (roots[k]@, shown_text(globals[i].1, true)->Ok_0),
        ),
    decreases n,
{
    let before = roots_shown(roots, globals, (n - 1) as nat)->Ok_0;
    let now = roots_shown(roots, globals, n)->Ok_0;
    if k == n - 1 {
        assert(now[before.len() as int] == (roots[k]@, shown_text(globals[i].1, true)->Ok_0));
    } else {
        lemma_root_shown(roots, globals, (n - 1) as nat, k, i);
        let want = (roots[k]@, shown_text(globals[i].1, true)->Ok_0);
        let at = before.index_of(want);
        assert(now[at] == want);
    }
}

proof fn lemma_extra_shown(roots: Seq<Seq<char>>, globals: Seq<(String, PyShown)>, n: nat, i: int)
    requires
        0 <= i < n <= globals.len(),
        extras_shown(roots, globals, n) is Ok,
        !roots.contains(globals[i].0@),
        included(globals[i].0@, globals[i].1),
    ensures
        shown_text(globals[i].1, false) is Ok,
        extras_shown(roots, globals, n)->Ok_0.contains(
            (globals[i].0@, shown_text(globals[i].1, false)->Ok_0),
        ),
    decreases n,
{
    let before = extras_shown(roots, globals, (n - 1) as nat)->Ok_0;
    let now = extras_shown(roots, globals, n)->Ok_0;
    let want = (globals[i].0@, shown_text(globals[i].1, false)->Ok_0);
    if i == n - 1 {
        assert(now[before.len() as int] == want);
    } else {
        lemma_extra_shown(roots, globals, (n - 1) as nat, i);
        let at = before.index_of(want);
        assert(now[at] == want);
    }
}

proof fn lemma_by_name_has(lines: Seq<(Seq<char>, Seq<char>)>, x: (Seq<char>, Seq<char>))
    ensures
        by_name(lines).contains(x) <==> lines.contains(x),
{
    let keys = Seq::new(lines.len(), |i: int| lines[i].0);
    let order = names::key_order(keys, lines.len());
    names::lemma_key_order(keys, lines.len());
    if lines.contains(x) {
        let i = lines.index_of(x);
        assert(order.contains(i));
        let k = order.index_of(i);
        assert(by_name(lines)[k] == x);
    }
    if by_name(lines).contains(x) {
        let k = by_name(lines).index_of(x);
        assert(0 <= order[k] < lines.len());
        assert(lines[order[k]] == x);
    }
}

/// An input variable is shown by its name with the form that the interpreter gives it, whole
/// where it is short; a list of more than a few items is cut.
pub proof fn input_variables_are_shown(
    roots: &Vec<String>,
    globals: &Vec<(String, PyShown)>,
    r: Vec<(String, String)>,
    k: int,
    i: int,
)
    requires
        call_ensures(
            collect_namespace_snapshot,
            (globals, roots),
            Ok::<Vec<(String, String)>, String>(r),
        ),
        0 <= k < roots@.len(),
        0 <= i < globals@.len(),
        globals@[i].0@ == roots@[k]@,
        forall|j: int| 0 <= j < i ==> (#[trigger] globals@[j]).0@ != roots@[k]@,
        globals@[i].1.kind != PyKind::List || globals@[i].1.length is None,
    ensures
        globals@[i].1.repr is Ok,
        exists|x: int|
            0 <= x < r@.len() && (#[trigger] r@[x]).0@ == roots@[k]@ && (
            globals@[i].1.repr->Ok_0@.len() <= 200 ==> r@[x].1@ == globals@[i].1.repr->Ok_0@)
                && (globals@[i].1.repr->Ok_0@.len() > 200 ==> text::has_prefix(
                r@[x].1@,
                globals@[i].1.repr->Ok_0@.take(200),
            )),
{
    lemma_global_index(globals@, roots@[k]@, 0, i);
    lemma_root_shown(roots@, globals@, roots@.len(), k, i);
    let first = roots_shown(roots@, globals@, roots@.len())->Ok_0;
    let extras = extras_shown(text::views(roots@), globals@, globals@.len())->Ok_0;
    let t = globals@[i].1.repr->Ok_0@;
    let want = (roots@[k]@, text::truncated(t, 200));
    assert(root_text(globals@[i].1) == Ok::<Seq<char>, Seq<char>>(text::truncated(t, 200)));
    assert(first.contains(want));
    let x = first.index_of(want);
    assert(pairs_view(r@) == first + by_name(extras));
    assert(pairs_view(r@).len() == r@.len());
    assert(pairs_view(r@)[x] == want);
    assert(pairs_view(r@)[x] == (r@[x].0@, r@[x].1@));
    if t.len() <= 200 {
        assert(t.subrange(0, t.len() as int) =~= t);
    } else {
        crate::text_laws::lemma_ends(t.take(200), "..."@);
    }
}

/// Every other variable is shown too, unless it is private, has a name of one letter, is a module
/// or can be called; numbers and truth values as the interpreter writes them.
pub proof fn other_variables_are_shown(
    roots: &Vec<String>,
    globals: &Vec<(String, PyShown)>,
    r: Vec<(String, String)>,
    i: int,
)
    requires
        call_ensures(
            collect_namespace_snapshot,
            (globals, roots),
            Ok::<Vec<(String, String)>, String>(r),
        ),
        0 <= i < globals@.len(),
        forall|k: int| 0 <= k < roots@.len() ==> (#[trigger] roots@[k])@ != globals@[i].0@,
        globals@[i].0@.len() > 1,
        globals@[i].0@[0] != '_',
        globals@[i].1.kind != PyKind::Module,
        !globals@[i].1.callable,
    ensures
        exists|x: int| 0 <= x < r@.len() && (#[trigger] r@[x]).0@ == globals@[i].0@ && (
            (globals@[i].1.kind == PyKind::Int || globals@[i].1.kind == PyKind::Bool
            || globals@[i].1.kind == PyKind::Float) ==> globals@[i].1.repr is Ok && r@[x].1@
            == globals@[i].1.repr->Ok_0@),
{
    reveal_strlit("_");
    let first = roots_shown(roots@, globals@, roots@.len())->Ok_0;
    let extras = extras_shown(text::views(roots@), globals@, globals@.len())->Ok_0;
    assert(pairs_view(r@) == first + by_name(extras));
    let name = globals@[i].0@;
    assert(!text::views(roots@).contains(name)) by {
        if text::views(roots@).contains(name) {
            let k = text::views(roots@).index_of(name);
            assert(roots@[k]@ == name);
        }
    }
    if text::has_prefix(name, "_"@) {
        assert(name.subrange(0, 1)[0] == '_');
    }
    lemma_extra_shown(text::views(roots@), globals@, globals@.len(), i);
    let want = (name, shown_text(globals@[i].1, false)->Ok_0);
    lemma_by_name_has(extras, want);
    let y = by_name(extras).index_of(want);
    let x = first.len() + y;
    assert((first + by_name(extras))[x] == want);
    assert(pairs_view(r@)[x] == (r@[x].0@, r@[x].1@));
}

proof fn lemma_extra_is_of(roots: Seq<Seq<char>>, globals: Seq<(String, PyShown)>, n: nat, k: int) -> (i: int)
    requires
        n <= globals.len(),
        extras_shown(roots, globals, n) is Ok,
        0 <= k < extras_shown(roots, globals, n)->Ok_0.len(),
    ensures
        0 <= i < n,
        globals[i].0@ == extras_shown(roots, globals, n)->Ok_0[k].0,
        included(globals[i].0@, globals[i].1),
    decreases n,
{
    let before = extras_shown(roots, globals, (n - 1) as nat)->Ok_0;
    let g = globals[n - 1];
    if !roots.contains(g.0@) && included(g.0@, g.1) && k == before.len() {
        n - 1
    } else {
        lemma_extra_is_of(roots, globals, (n - 1) as nat, k)
    }
}

proof fn lemma_roots_only(roots: Seq<String>, globals: Seq<(String, PyShown)>, n: nat, k: int)
    requires
        n <= roots.len(),
        roots_shown(roots, globals, n) is Ok,
        0 <= k < roots_shown(roots, globals, n)->Ok_0.len(),
    ensures
        text::views(roots).contains(roots_shown(roots, globals, n)->Ok_0[k].0),
    decreases n,
{
    let before = roots_shown(roots, globals, (n - 1) as nat)->Ok_0;
    if k < before.len() {
        lemma_roots_only(roots, globals, (n - 1) as nat, k);
    } else {
        assert(text::views(roots)[n - 1] == roots[n - 1]@);
    }
}

/// Nothing private is shown: a name that is shown is that of an input, or does not begin with an
/// underscore.
pub proof fn private_variables_are_not_shown(
    roots: &Vec<String>,
    globals: &Vec<(String, PyShown)>,
    r: Vec<(String, String)>,
    x: int,
)
    requires
        call_ensures(
            collect_namespace_snapshot,
            (globals, roots),
            Ok::<Vec<(String, String)>, String>(r),
        ),
        0 <= x < r@.len(),
    ensures
        text::views(roots@).contains(r@[x].0@) || (r@[x].0@.len() > 1 && r@[x].0@[0] != '_'),
{
    reveal_strlit("_");
    let first = roots_shown(roots@, globals@, roots@.len())->Ok_0;
    let extras = extras_shown(text::views(roots@), globals@, globals@.len())->Ok_0;
    assert(pairs_view(r@) == first + by_name(extras));
    assert(pairs_view(r@)[x] == (r@[x].0@, r@[x].1@));
    if x < first.len() {
        lemma_roots_only(roots@, globals@, roots@.len(), x);
    } else {
        let at = by_name(extras)[x - first.len()];
        assert(by_name(extras).contains(at));
        lemma_by_name_has(extras, at);
        let k = extras.index_of(at);
        let i = lemma_extra_is_of(text::views(roots@), globals@, globals@.len(), k);
        let name = r@[x].0@;
        if name[0] == '_' {
            assert(name.subrange(0, 1) =~= "_"@);
        }
    }
}

} // verus!
