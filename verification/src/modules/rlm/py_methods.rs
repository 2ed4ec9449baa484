//! The methods that the objects of the interpreter offer.

use vstd::prelude::*;

use crate::modules::rlm::runtime::{MethodSignature, MethodSource};
use crate::modules::rlm::types;
use crate::text;
use crate::text_laws;

verus! {

/// A method as a class lists it. The three signatures are tried in this order.
#[derive(Debug)]
pub struct RawMethod {
    pub name: String,
    pub doc: Option<String>,
    pub text_signature: Option<String>,
    pub inspected_signature: Option<String>,
    pub own_signature: Option<String>,
}

pub struct MethodView {
    pub name: Seq<char>,
    pub signature: Seq<char>,
    pub doc: Seq<char>,
    pub source: MethodSource,
    pub is_dunder: bool,
}

impl View for MethodSignature {
    type V = MethodView;

    open spec fn view(&self) -> MethodView {
        MethodView {
            name: self.name@,
            signature: self.signature@,
            doc: self.doc@,
            source: self.source,
            is_dunder: self.is_dunder,
        }
    }
}

pub open spec fn method_views(methods: Seq<MethodSignature>) -> Seq<MethodView> {
    Seq::new(methods.len(), |i: int| methods[i]@)
}

/// A signature without the receiver. `alone` and `alone_slash` are signatures of it alone, and
/// `first_slash` and `first` are what stands before further parameters.
pub open spec fn without_receiver(
    s: Seq<char>,
    alone: Seq<char>,
    alone_slash: Seq<char>,
    first_slash: Seq<char>,
    first: Seq<char>,
) -> Seq<char> {
    if s == alone || s == alone_slash {
        "()"@
    } else if text::has_prefix(s, first_slash) {
        "("@ + s.skip(first_slash.len() as int)
    } else if text::has_prefix(s, first) {
        "("@ + s.skip(first.len() as int)
    } else {
        s
    }
}

fn drop_prefix(s: &str, prefix: &str) -> (r: String)
    requires
        text::has_prefix(s@, prefix@),
    ensures
        r@ == "("@ + s@.skip(prefix@.len() as int),
{
    let c = text::chars_of(s);
    let p = text::chars_of(prefix);
    let n = c.len();
    let k = p.len();
    let rest = &c[k..n];
    proof {
        assert(rest@ =~= s@.skip(prefix@.len() as int));
    }
    let tail = text::string_of(rest);
    let mut out = "(".to_owned();
    out.append(tail.as_str());
    out
}

fn strip_receiver(
    s: &str,
    alone: &str,
    alone_slash: &str,
    first_slash: &str,
    first: &str,
) -> (r: String)
    ensures
        r@ == without_receiver(s@, alone@, alone_slash@, first_slash@, first@),
{
    if text::text_eq(s, alone) || text::text_eq(s, alone_slash) {
        "()".to_owned()
    } else if text::starts_with_str(s, first_slash) {
        drop_prefix(s, first_slash)
    } else if text::starts_with_str(s, first) {
        drop_prefix(s, first)
    } else {
        s.to_owned()
    }
}

/// A signature without the receiver and without marks for it.
pub open spec fn unmarked(raw: Seq<char>) -> Seq<char> {
    let a = without_receiver(
        text::trim(raw),
        "($self)"@,
        "($self, /)"@,
        "($self, /, "@,
        "($self, "@,
    );
    let b = without_receiver(a, "(self)"@, "(self, /)"@, "(self, /, "@, "(self, "@);
    let c = text::replace_all(b, "($self, /)"@, "()"@);
    let d = text::replace_all(c, "($self,)"@, "()"@);
    let e = text::replace_all(d, ", /)"@, ")"@);
    text::replace_all(e, ", /, "@, ", "@)
}

/// A signature as it is shown: without the receiver, in brackets, and with short type names.
pub open spec fn sanitized(raw: Seq<char>) -> Seq<char> {
    let s = unmarked(raw);
    let bracketed = if text::has_prefix(s, "("@) {
        s
    } else {
        "("@ + s + ")"@
    };
    types::shortened(bracketed, '.', "."@)
}

/// A signature as it is shown.
pub fn sanitize_signature(raw_signature: &str) -> (r: String)
    ensures
        r@ == sanitized(raw_signature@),
{
    proof {
        reveal_strlit("($self, /)");
        reveal_strlit("($self,)");
        reveal_strlit(", /)");
        reveal_strlit(", /, ");
    }
    let trimmed = text::trim_str(raw_signature);
    let a = strip_receiver(
        trimmed.as_str(),
        "($self)",
        "($self, /)",
        "($self, /, ",
        "($self, ",
    );
    let b = strip_receiver(a.as_str(), "(self)", "(self, /)", "(self, /, ", "(self, ");
    let c = text::replace_str(b.as_str(), "($self, /)", "()");
    let d = text::replace_str(c.as_str(), "($self,)", "()");
    let e = text::replace_str(d.as_str(), ", /)", ")");
    let s = text::replace_str(e.as_str(), ", /, ", ", ");
    if text::starts_with_str(s.as_str(), "(") {
        types::shorten(s.as_str(), '.', ".")
    } else {
        let mut bracketed = "(".to_owned();
        bracketed.append(s.as_str());
        bracketed.append(")");
        types::shorten(bracketed.as_str(), '.', ".")
    }
}

/// The trimmed text when there is one and it is not blank.
pub open spec fn nonblank(t: Option<String>) -> Option<Seq<char>> {
    match t {
        Some(s) => if text::trim(s@).len() == 0 {
            None
        } else {
            Some(text::trim(s@))
        },
        None => None,
    }
}

fn trimmed_or_none(t: &Option<String>) -> (r: Option<String>)
    ensures
        text::opt_view(r) == nonblank(*t),
{
    match t {
        Some(s) => {
            let trimmed = text::trim_str(s.as_str());
            if trimmed.as_str().is_empty() {
                None
            } else {
                Some(trimmed)
            }
        },
        None => None,
    }
}

/// The signature of a method: the first of its three that says anything.
pub open spec fn raw_signature(m: RawMethod) -> Seq<char> {
    match nonblank(m.text_signature) {
        Some(s) => s,
        None => match nonblank(m.inspected_signature) {
            Some(s) => s,
            None => match nonblank(m.own_signature) {
                Some(s) => s,
                None => "()"@,
            },
        },
    }
}

fn extract_signature(m: &RawMethod) -> (r: String)
    ensures
        r@ == raw_signature(*m),
{
    match trimmed_or_none(&m.text_signature) {
        Some(s) => s,
        None => match trimmed_or_none(&m.inspected_signature) {
            Some(s) => s,
            None => match trimmed_or_none(&m.own_signature) {
                Some(s) => s,
                None => "()".to_owned(),
            },
        },
    }
}

pub open spec fn is_dunder(name: Seq<char>) -> bool {
    text::has_prefix(name, "__"@) && text::has_suffix(name, "__"@)
}

/// The method is listed: special methods are left out but for those of a container.
pub open spec fn is_listed(name: Seq<char>) -> bool {
    name != "__baml__"@ && (is_dunder(name) ==> name == "__len__"@ || name == "__iter__"@ || name
        == "__getitem__"@)
}

pub open spec fn source_of(name: Seq<char>) -> MethodSource {
    if name == "__len__"@ || name == "__iter__"@ || name == "__getitem__"@ || name == "__repr__"@
        || name == "__baml__"@ {
        MethodSource::Generated
    } else {
        MethodSource::Custom
    }
}

/// Where a method of the name comes from.
pub fn classify_method_source(name: &str) -> (r: MethodSource)
    ensures
        r == source_of(name@),
{
    if text::text_eq(name, "__len__") || text::text_eq(name, "__iter__") || text::text_eq(
        name,
        "__getitem__",
    ) || text::text_eq(name, "__repr__") || text::text_eq(name, "__baml__") {
        MethodSource::Generated
    } else {
        MethodSource::Custom
    }
}

/// What is listed of a method.
pub open spec fn listed(m: RawMethod) -> MethodView {
    MethodView {
        name: m.name@,
        signature: sanitized(raw_signature(m)),
        doc: match m.doc {
            Some(d) => text::trim(d@),
            None => Seq::empty(),
        },
        source: source_of(m.name@),
        is_dunder: is_dunder(m.name@),
    }
}

/// The order of methods: by name, by signature, and by description.
pub open spec fn before(a: MethodView, b: MethodView) -> bool {
    text::lex_less(a.name, b.name) || (a.name == b.name && (text::lex_less(
        a.signature,
        b.signature,
    ) || (a.signature == b.signature && text::lex_less(a.doc, b.doc))))
}

fn comes_before(a: &MethodSignature, b: &MethodSignature) -> (r: bool)
    ensures
        r == before(a@, b@),
{
    if text::str_less(a.name.as_str(), b.name.as_str()) {
        return true;
    }
    if !text::text_eq(a.name.as_str(), b.name.as_str()) {
        return false;
    }
    if text::str_less(a.signature.as_str(), b.signature.as_str()) {
        return true;
    }
    if !text::text_eq(a.signature.as_str(), b.signature.as_str()) {
        return false;
    }
    text::str_less(a.doc.as_str(), b.doc.as_str())
}

/// A method put behind those that do not come after it.
pub open spec fn insert_method(list: Seq<MethodView>, m: MethodView) -> Seq<MethodView>
    decreases list.len(),
{
    if list.len() == 0 || !before(m, list.last()) {
        list.push(m)
    } else {
        insert_method(list.drop_last(), m).push(list.last())
    }
}

/// The methods among the first `n` that are listed, in order.
pub open spec fn in_order(members: Seq<RawMethod>, n: nat) -> Seq<MethodView>
    decreases n,
{
    if n == 0 || n > members.len() {
        Seq::empty()
    } else if is_listed(members[n - 1].name@) {
        insert_method(in_order(members, (n - 1) as nat), listed(members[n - 1]))
    } else {
        in_order(members, (n - 1) as nat)
    }
}

pub open spec fn same_method(a: MethodView, b: MethodView) -> bool {
    a.name == b.name && a.signature == b.signature
}

/// The first of each run of methods with one name and signature.
pub open spec fn without_repeats(list: Seq<MethodView>, n: nat) -> Seq<MethodView>
    decreases n,
{
    if n == 0 || n > list.len() {
        Seq::empty()
    } else {
        let kept = without_repeats(list, (n - 1) as nat);
        if kept.len() > 0 && same_method(kept.last(), list[n - 1]) {
            kept
        } else {
            kept.push(list[n - 1])
        }
    }
}

/// The methods of a class as they are shown.
pub open spec fn visible_methods(members: Seq<RawMethod>) -> Seq<MethodView> {
    let all = in_order(members, members.len());
    without_repeats(all, all.len())
}

fn list_method(m: &RawMethod) -> (r: MethodSignature)
    ensures
        r@ == listed(*m),
{
    let signature = extract_signature(m);
    let doc = match &m.doc {
        Some(d) => text::trim_str(d.as_str()),
        None => String::new(),
    };
    let name = m.name.as_str();
    MethodSignature {
        name: m.name.clone(),
        signature: sanitize_signature(signature.as_str()),
        doc,
        source: classify_method_source(name),
        is_dunder: text::starts_with_str(name, "__") && text::ends_with_str(name, "__"),
    }
}

fn method_is_listed(name: &str) -> (r: bool)
    ensures
        r == is_listed(name@),
{
    if text::text_eq(name, "__baml__") {
        return false;
    }
    if text::starts_with_str(name, "__") && text::ends_with_str(name, "__") {
        return text::text_eq(name, "__len__") || text::text_eq(name, "__iter__") || text::text_eq(
            name,
            "__getitem__",
        );
    }
    true
}

fn place_method(list: &mut Vec<MethodSignature>, m: MethodSignature)
    ensures
        method_views(final(list)@) == insert_method(method_views(old(list)@), m@),
{
    let ghost prior = method_views(list@);
    let mut p: usize = list.len();
    proof {
        assert(prior.take(p as int) =~= prior);
        assert(insert_method(prior, m@) =~= insert_method(prior.take(p as int), m@) + prior.skip(
            p as int,
        ));
    }
    while p > 0 && comes_before(&m, &list[p - 1])
        invariant
            p <= list@.len(),
            prior == method_views(list@),
            insert_method(prior, m@) == insert_method(prior.take(p as int), m@) + prior.skip(
                p as int,
            ),
        decreases p,
    {
        proof {
            let head = prior.take(p as int);
            assert(head.last() == list@[p - 1]@);
            assert(head.drop_last() =~= prior.take(p - 1));
            assert(insert_method(prior.take(p - 1), m@).push(head.last()) + prior.skip(p as int)
                =~= insert_method(prior.take(p - 1), m@) + prior.skip(p - 1));
        }
        p -= 1;
    }
    proof {
        let head = prior.take(p as int);
        if p > 0 {
            assert(head.last() == list@[p - 1]@);
        }
        assert(insert_method(head, m@) == head.push(m@));
        assert(head.push(m@) + prior.skip(p as int) =~= prior.insert(p as int, m@));
    }
    let ghost shown = m@;
    list.insert(p, m);
    proof {
        assert(method_views(list@) =~= prior.insert(p as int, shown));
    }
}

/// The methods of a class as they are shown: sorted, and each once.
pub fn collect_visible_methods(members: &Vec<RawMethod>) -> (r: Vec<MethodSignature>)
    ensures
        method_views(r@) == visible_methods(members@),
{
    let mut all: Vec<MethodSignature> = Vec::new();
    let mut i: usize = 0;
    proof {
        assert(method_views(all@) =~= Seq::empty());
    }
    while i < members.len()
        invariant
            i <= members@.len(),
            method_views(all@) == in_order(members@, i as nat),
        decreases members@.len() - i,
    {
        if method_is_listed(members[i].name.as_str()) {
            place_method(&mut all, list_method(&members[i]));
        }
        i += 1;
    }
    let ghost ordered = method_views(all@);
    let mut out: Vec<MethodSignature> = Vec::new();
    let mut k: usize = 0;
    proof {
        assert(method_views(out@) =~= Seq::empty());
    }
    while k < all.len()
        invariant
            k <= all@.len(),
            ordered == method_views(all@),
            method_views(out@) == without_repeats(ordered, k as nat),
        decreases all@.len() - k,
    {
        let count = out.len();
        proof {
            assert(method_views(out@).len() == count);
            if count > 0 {
                assert(method_views(out@).last() == out@[count - 1]@);
            }
            assert(ordered[k as int] == all@[k as int]@);
        }
        let repeated = count > 0 && text::text_eq(
            out[count - 1].name.as_str(),
            all[k].name.as_str(),
        ) && text::text_eq(out[count - 1].signature.as_str(), all[k].signature.as_str());
        if !repeated {
            let ghost prior = out@;
            out.push(all[k].clone());
            proof {
                assert(method_views(out@) =~= method_views(prior).push(ordered[k as int]));
            }
        }
        k += 1;
    }
    out
}

proof fn lemma_before_asymmetric(a: MethodView, b: MethodView)
    requires
        before(a, b),
    ensures
        !before(b, a),
{
    text::lemma_lex_irreflexive(a.name);
    text::lemma_lex_irreflexive(a.signature);
    text::lemma_lex_irreflexive(a.doc);
    if before(b, a) {
        if text::lex_less(a.name, b.name) && text::lex_less(b.name, a.name) {
            text::lemma_lex_transitive(a.name, b.name, a.name);
        }
        if text::lex_less(a.signature, b.signature) && text::lex_less(b.signature, a.signature) {
            text::lemma_lex_transitive(a.signature, b.signature, a.signature);
        }
        if text::lex_less(a.doc, b.doc) && text::lex_less(b.doc, a.doc) {
            text::lemma_lex_transitive(a.doc, b.doc, a.doc);
        }
    }
}

proof fn lemma_before_transitive(a: MethodView, b: MethodView, c: MethodView)
    requires
        before(a, b),
        before(b, c),
    ensures
        before(a, c),
{
    if text::lex_less(a.name, b.name) && text::lex_less(b.name, c.name) {
        text::lemma_lex_transitive(a.name, b.name, c.name);
    }
    if text::lex_less(a.signature, b.signature) && text::lex_less(b.signature, c.signature) {
        text::lemma_lex_transitive(a.signature, b.signature, c.signature);
    }
    if text::lex_less(a.doc, b.doc) && text::lex_less(b.doc, c.doc) {
        text::lemma_lex_transitive(a.doc, b.doc, c.doc);
    }
}

/// Two methods of which neither comes before the other have the same texts.
proof fn lemma_before_total(a: MethodView, b: MethodView)
    ensures
        before(a, b) || before(b, a) || (same_method(a, b) && a.doc == b.doc),
{
    text::lemma_lex_total(a.name, b.name);
    text::lemma_lex_total(a.signature, b.signature);
    text::lemma_lex_total(a.doc, b.doc);
}

pub open spec fn ordered(list: Seq<MethodView>) -> bool {
    forall|i: int, j: int|
        0 <= i < j < list.len() ==> !before(#[trigger] list[j], #[trigger] list[i])
}

proof fn lemma_insert_ordered(list: Seq<MethodView>, m: MethodView)
    requires
        ordered(list),
    ensures
        ordered(insert_method(list, m)),
        forall|i: int|
            0 <= i < insert_method(list, m).len() ==> #[trigger] insert_method(list, m)[i] == m
                || list.contains(insert_method(list, m)[i]),
    decreases list.len(),
{
    let now = insert_method(list, m);
    if list.len() == 0 || !before(m, list.last()) {
        assert forall|i: int, j: int| 0 <= i < j < now.len() implies !before(
            #[trigger] now[j],
            #[trigger] now[i],
        ) by {
            if j == list.len() && i < list.len() - 1 {
                assert(!before(list[list.len() - 1], list[i]));
                if before(m, list[i]) {
                    lemma_before_total(list.last(), list[i]);
                    if before(list[i], list.last()) {
                        lemma_before_transitive(m, list[i], list.last());
                    } else {
                        assert(same_method(list.last(), list[i]) && list.last().doc
                            == list[i].doc);
                    }
                }
            }
        }
        assert forall|i: int| 0 <= i < now.len() implies #[trigger] now[i] == m || list.contains(
            now[i],
        ) by {
            if i < list.len() {
                assert(list[i] == now[i]);
            }
        }
    } else {
        let head = list.drop_last();
        lemma_insert_ordered(head, m);
        let grown = insert_method(head, m);
        assert forall|i: int, j: int| 0 <= i < j < now.len() implies !before(
            #[trigger] now[j],
            #[trigger] now[i],
        ) by {
            if j == now.len() - 1 {
                assert(now[i] == grown[i]);
                if grown[i] == m {
                    lemma_before_asymmetric(m, list.last());
                } else {
                    let k = head.index_of(grown[i]);
                    assert(list[k] == grown[i]);
                    assert(!before(list[list.len() - 1], list[k]));
                }
            } else {
                assert(now[i] == grown[i] && now[j] == grown[j]);
            }
        }
        assert forall|i: int| 0 <= i < now.len() implies #[trigger] now[i] == m || list.contains(
            now[i],
        ) by {
            if i < grown.len() {
                assert(now[i] == grown[i]);
                if grown[i] != m {
                    let k = head.index_of(grown[i]);
                    assert(list[k] == grown[i]);
                }
            } else {
                assert(list[list.len() - 1] == now[i]);
            }
        }
    }
}

proof fn lemma_in_order(members: Seq<RawMethod>, n: nat)
    requires
        n <= members.len(),
    ensures
        ordered(in_order(members, n)),
    decreases n,
{
    if n > 0 {
        lemma_in_order(members, (n - 1) as nat);
        if is_listed(members[n - 1].name@) {
            lemma_insert_ordered(in_order(members, (n - 1) as nat), listed(members[n - 1]));
        }
    }
}

proof fn lemma_without_repeats(list: Seq<MethodView>, n: nat)
    requires
        ordered(list),
        n <= list.len(),
    ensures
        ordered(without_repeats(list, n)),
        forall|i: int|
            0 <= i < without_repeats(list, n).len() ==> list.take(n as int).contains(
                #[trigger] without_repeats(list, n)[i],
            ),
        forall|i: int, j: int|
            0 <= i < j < without_repeats(list, n).len() ==> !same_method(
                #[trigger] without_repeats(list, n)[i],
                #[trigger] without_repeats(list, n)[j],
            ),
    decreases n,
{
    if n > 0 {
        lemma_without_repeats(list, (n - 1) as nat);
        let kept = without_repeats(list, (n - 1) as nat);
        let now = without_repeats(list, n);
        let next = list[n - 1];
        let head = list.take(n - 1);
        assert forall|i: int| 0 <= i < now.len() implies list.take(n as int).contains(
            #[trigger] now[i],
        ) by {
            if i < kept.len() {
                assert(now[i] == kept[i]);
                let k = head.index_of(kept[i]);
                assert(list.take(n as int)[k] == kept[i]);
            } else {
                assert(list.take(n as int)[n - 1] == next);
            }
        }
        assert forall|i: int| 0 <= i < kept.len() implies !before(next, #[trigger] kept[i]) by {
            let k = head.index_of(kept[i]);
            assert(list[k] == kept[i]);
        }
        if now.len() > kept.len() {
            assert forall|i: int, j: int| 0 <= i < j < now.len() implies !before(
                #[trigger] now[j],
                #[trigger] now[i],
            ) by {
                assert(now[i] == kept[i]);
                if j < kept.len() {
                    assert(now[j] == kept[j]);
                }
            }
            assert forall|i: int, j: int| 0 <= i < j < now.len() implies !same_method(
                #[trigger] now[i],
                #[trigger] now[j],
            ) by {
                assert(now[i] == kept[i]);
                if j < kept.len() {
                    assert(now[j] == kept[j]);
                } else if i < kept.len() - 1 && same_method(kept[i], next) {
                    let last = kept.last();
                    assert(!before(last, kept[i]));
                    assert(!before(next, last));
                    lemma_between(kept[i], last, next);
                    assert(same_method(last, kept[i]));
                }
            }
        }
    }
}

/// What stands between two methods with one name and signature has them too.
proof fn lemma_between(a: MethodView, b: MethodView, c: MethodView)
    requires
        same_method(a, c),
        !before(b, a),
        !before(c, b),
    ensures
        same_method(a, b),
{
    lemma_before_total(a, b);
    lemma_before_total(b, c);
    text::lemma_lex_total(a.name, b.name);
    text::lemma_lex_total(a.signature, b.signature);
    text::lemma_lex_irreflexive(a.name);
    text::lemma_lex_irreflexive(a.signature);
    if text::lex_less(a.name, b.name) && text::lex_less(b.name, c.name) {
        text::lemma_lex_transitive(a.name, b.name, a.name);
    }
    if text::lex_less(a.signature, b.signature) && text::lex_less(b.signature, c.signature) {
        text::lemma_lex_transitive(a.signature, b.signature, a.signature);
    }
}

/// The methods of a class are listed in order, and no two of them have the same name and
/// signature.
pub proof fn visible_methods_are_sorted_and_distinct(members: Seq<RawMethod>)
    ensures
        ordered(visible_methods(members)),
        forall|i: int, j: int|
            0 <= i < j < visible_methods(members).len() ==> !same_method(
                #[trigger] visible_methods(members)[i],
                #[trigger] visible_methods(members)[j],
            ),
{
    let all = in_order(members, members.len());
    lemma_in_order(members, members.len());
    lemma_without_repeats(all, all.len());
}

proof fn lemma_without_char(s: Seq<char>, p: Seq<char>, k: int)
    requires
        0 <= k < p.len(),
        forall|i: int| 0 <= i < s.len() ==> #[trigger] s[i] != p[k],
    ensures
        !text::has_text(s, p),
{
    if text::has_text(s, p) {
        let i = choose|i: int| text::occurs_at(s, p, i);
        assert(s.subrange(i, i + p.len())[k] == s[i + k]);
    }
}

/// What a signature comes to that has neither marks nor paths nor a receiver.
proof fn lemma_plain_signature(s: Seq<char>)
    requires
        s.len() > 0,
        s[0] == '(',
        s.last() == ')',
        forall|i: int| 0 <= i < s.len() ==> #[trigger] s[i] != '$' && s[i] != '/' && s[i] != '.',
        !text::has_prefix(s, "(self"@),
    ensures
        sanitized(s) == s,
        text::replace_all(s, "($self, /)"@, "()"@) == s,
        text::replace_all(s, "($self,)"@, "()"@) == s,
        text::replace_all(s, ", /)"@, ")"@) == s,
        text::replace_all(s, ", /, "@, ", "@) == s,
        types::shortened(s, '.', "."@) == s,
        text::has_prefix(s, "("@),
{
    reveal_strlit("($self)");
    reveal_strlit("($self, /)");
    reveal_strlit("($self, /, ");
    reveal_strlit("($self, ");
    reveal_strlit("(self)");
    reveal_strlit("(self, /)");
    reveal_strlit("(self, /, ");
    reveal_strlit("(self, ");
    reveal_strlit("(self");
    reveal_strlit("($self,)");
    reveal_strlit(", /)");
    reveal_strlit(", /, ");
    reveal_strlit(".");
    reveal_strlit("(");
    lemma_not_space();
    text_laws::lemma_trimmed(s);
    lemma_without_char(s, "($self, /, "@, 1);
    lemma_without_char(s, "($self, "@, 1);
    lemma_without_char(s, "($self, /)"@, 1);
    lemma_without_char(s, "($self,)"@, 1);
    lemma_without_char(s, ", /)"@, 2);
    lemma_without_char(s, ", /, "@, 2);
    assert(s != "($self)"@) by {
        assert("($self)"@[1] == '$');
    }
    assert(s != "($self, /)"@) by {
        assert("($self, /)"@[1] == '$');
    }
    assert(!text::has_prefix(s, "(self, /, "@)) by {
        if text::has_prefix(s, "(self, /, "@) {
            assert(s.subrange(0, 5) =~= s.subrange(0, 10).subrange(0, 5));
            assert("(self, /, "@.subrange(0, 5) =~= "(self"@);
        }
    }
    assert(!text::has_prefix(s, "(self, "@)) by {
        if text::has_prefix(s, "(self, "@) {
            assert(s.subrange(0, 5) =~= s.subrange(0, 7).subrange(0, 5));
            assert("(self, "@.subrange(0, 5) =~= "(self"@);
        }
    }
    assert(s != "(self)"@) by {
        assert("(self)"@.subrange(0, 5) =~= "(self"@);
    }
    assert(s != "(self, /)"@) by {
        assert("(self, /)"@.subrange(0, 5) =~= "(self"@);
    }
    text_laws::lemma_replaced_unfound(s, "($self, /)"@, "()"@);
    text_laws::lemma_replaced_unfound(s, "($self,)"@, "()"@);
    text_laws::lemma_replaced_unfound(s, ", /)"@, ")"@);
    text_laws::lemma_replaced_unfound(s, ", /, "@, ", "@);
    types::lemma_shortened_unmarked(s, '.', "."@);
    assert(s.subrange(0, 1) =~= "("@);
}

proof fn lemma_not_space()
    ensures
        !text::is_space('('),
        !text::is_space(')'),
{
    text_laws::ascii_white_space('(');
    text_laws::ascii_white_space(')');
}

/// A signature without marks is shown as it is, and one with a receiver without it.
pub proof fn signatures_are_shown_without_the_receiver(raw: &str, r: String, plain: Seq<char>)
    requires
        call_ensures(sanitize_signature, (raw,), r),
        plain.len() > 0,
        plain.last() == ')',
        forall|i: int|
            0 <= i < plain.len() ==> #[trigger] plain[i] != '$' && plain[i] != '/' && plain[i]
                != '.',
        !text::has_prefix("("@ + plain, "(self"@),
    ensures
        raw@ == "("@ + plain ==> r@ == "("@ + plain,
        raw@ == "($self, "@ + plain ==> r@ == "("@ + plain,
        raw@ == "(self, "@ + plain ==> r@ == "("@ + plain,
{
    reveal_strlit("(");
    let s = "("@ + plain;
    assert(s.last() == plain.last());
    assert forall|i: int| 0 <= i < s.len() implies #[trigger] s[i] != '$' && s[i] != '/' && s[i]
        != '.' by {
        if i > 0 {
            assert(s[i] == plain[i - 1]);
        }
    }
    lemma_plain_signature(s);
    lemma_plain_unmarked(s);
    if raw@ == "($self, "@ + plain {
        lemma_with_receiver(plain);
    }
    if raw@ == "(self, "@ + plain {
        lemma_with_named_receiver(plain);
    }
}

/// The receivers are not there.
proof fn lemma_plain_unmarked(s: Seq<char>)
    requires
        s.len() > 0,
        s[0] == '(',
        s.last() == ')',
        forall|i: int| 0 <= i < s.len() ==> #[trigger] s[i] != '$' && s[i] != '/' && s[i] != '.',
        !text::has_prefix(s, "(self"@),
    ensures
        without_receiver(s, "(self)"@, "(self, /)"@, "(self, /, "@, "(self, "@) == s,
{
    reveal_strlit("(self)");
    reveal_strlit("(self, /)");
    reveal_strlit("(self, /, ");
    reveal_strlit("(self, ");
    reveal_strlit("(self");
    if text::has_prefix(s, "(self, /, "@) {
        assert(s.subrange(0, 5) =~= s.subrange(0, 10).subrange(0, 5));
        assert("(self, /, "@.subrange(0, 5) =~= "(self"@);
    }
    if text::has_prefix(s, "(self, "@) {
        assert(s.subrange(0, 5) =~= s.subrange(0, 7).subrange(0, 5));
        assert("(self, "@.subrange(0, 5) =~= "(self"@);
    }
    if s == "(self)"@ {
        assert("(self)"@.subrange(0, 5) =~= "(self"@);
    }
    if s == "(self, /)"@ {
        assert("(self, /)"@.subrange(0, 5) =~= "(self"@);
    }
}

proof fn lemma_with_receiver(plain: Seq<char>)
    requires
        plain.len() > 0,
        plain.last() == ')',
        forall|i: int| 0 <= i < plain.len() ==> #[trigger] plain[i] != '/',
    ensures
        without_receiver(
            text::trim("($self, "@ + plain),
            "($self)"@,
            "($self, /)"@,
            "($self, /, "@,
            "($self, "@,
        ) == "("@ + plain,
{
    reveal_strlit("($self)");
    reveal_strlit("($self, /)");
    reveal_strlit("($self, /, ");
    reveal_strlit("($self, ");
    lemma_not_space();
    let s = "($self, "@ + plain;
    assert(s[0] == '(');
    assert(s.last() == ')');
    text_laws::lemma_trimmed(s);
    assert("($self, /, "@[8] == '/');
    assert(s[8] == plain[0]);
    assert("($self, /)"@[8] == '/');
    assert("($self)"@[6] == ')');
    assert(s[6] == ',');
    if text::has_prefix(s, "($self, /, "@) {
        assert(s.subrange(0, 11)[8] == s[8]);
    }
    assert(s.subrange(0, 8) =~= "($self, "@);
    assert(s.skip(8) =~= plain);
}

proof fn lemma_with_named_receiver(plain: Seq<char>)
    requires
        plain.len() > 0,
        plain.last() == ')',
        forall|i: int| 0 <= i < plain.len() ==> #[trigger] plain[i] != '/',
    ensures
        without_receiver(
            text::trim("(self, "@ + plain),
            "($self)"@,
            "($self, /)"@,
            "($self, /, "@,
            "($self, "@,
        ) == "(self, "@ + plain,
        without_receiver(
            "(self, "@ + plain,
            "(self)"@,
            "(self, /)"@,
            "(self, /, "@,
            "(self, "@,
        ) == "("@ + plain,
{
    reveal_strlit("($self)");
    reveal_strlit("($self, /)");
    reveal_strlit("($self, /, ");
    reveal_strlit("($self, ");
    reveal_strlit("(self)");
    reveal_strlit("(self, /)");
    reveal_strlit("(self, /, ");
    reveal_strlit("(self, ");
    lemma_not_space();
    let s = "(self, "@ + plain;
    assert(s[0] == '(');
    assert(s[1] == 's');
    assert(s.last() == ')');
    text_laws::lemma_trimmed(s);
    assert("($self)"@[1] == '$');
    assert("($self, /)"@[1] == '$');
    if text::has_prefix(s, "($self, /, "@) {
        assert(s.subrange(0, 11)[1] == s[1]);
    }
    if text::has_prefix(s, "($self, "@) {
        assert(s.subrange(0, 8)[1] == s[1]);
    }
    assert("(self, /, "@[7] == '/');
    assert(s[7] == plain[0]);
    assert("(self, /)"@[7] == '/');
    assert("(self)"@[5] == ')');
    assert(s[5] == ',');
    if text::has_prefix(s, "(self, /, "@) {
        assert(s.subrange(0, 10)[7] == s[7]);
    }
    assert(s.subrange(0, 7) =~= "(self, "@);
    assert(s.skip(7) =~= plain);
}

} // verus!
