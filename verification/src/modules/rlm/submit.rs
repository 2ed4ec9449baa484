//! The call by which the code of a run hands in its output.

use indexmap::IndexMap;
use vstd::prelude::*;

use crate::modules::rlm::metadata;
use crate::modules::rlm::metadata::{
    insert_meta, no_metas, ConstraintResult, ConstraintView, FieldMeta, FieldMetaView,
};
use crate::modules::rlm::py_bridge;
use crate::modules::rlm::py_bridge::{
    find_key, kwargs_to_baml_value, BamlConvertError, BamlParseError, ParseErrorView, PyObject,
    ResponseCheck,
};
use crate::modules::rlm::types;
use crate::modules::rlm::types::{
    last_part_of, Constraint, ConstraintKind, FieldSchema, OutputFormat,
};
use crate::modules::rlm::values::{BamlValue, BamlView};
use crate::text;
use crate::text_laws;

verus! {

/// Why an output was not accepted.
#[derive(Debug)]
pub enum SubmitError {
    ValidationError { message: String, errors: Vec<String> },
    AssertionFailed { label: String, expression: String },
}

pub enum SubmitErrorView {
    ValidationError { message: Seq<char>, errors: Seq<Seq<char>> },
    AssertionFailed { label: Seq<char>, expression: Seq<char> },
}

impl View for SubmitError {
    type V = SubmitErrorView;

    open spec fn view(&self) -> SubmitErrorView {
        match self {
            SubmitError::ValidationError { message, errors } => SubmitErrorView::ValidationError {
                message: message@,
                errors: text::views(errors@),
            },
            SubmitError::AssertionFailed { label, expression } => SubmitErrorView::AssertionFailed {
                label: label@,
                expression: expression@,
            },
        }
    }
}

/// What was handed in: an output and what is known of it, or why it was not accepted.
pub type SubmitResultDyn = Result<(BamlValue, IndexMap<String, FieldMeta>), SubmitError>;

/// Where what was handed in last is kept.
#[derive(Debug)]
pub struct SubmitSlot {
    pub stored: Option<SubmitResultDyn>,
}

impl SubmitSlot {
    pub fn new() -> (r: Self)
        ensures
            r.stored is None,
    {
        SubmitSlot { stored: None }
    }
}

/// Empties the slot.
pub fn clear_submit_slot(slot: &mut SubmitSlot)
    ensures
        final(slot).stored is None,
{
    slot.stored = None;
}

/// Takes out what the slot keeps, and leaves it empty.
pub fn take_submit_result(slot: &mut SubmitSlot) -> (r: Option<SubmitResultDyn>)
    ensures
        r == old(slot).stored,
        final(slot).stored is None,
{
    slot.stored.take()
}

/// What a call comes back with: a text to go on with, an error in the call itself, or the end of
/// the code's run.
#[derive(Debug)]
pub enum SubmitReply {
    Text(String),
    ValueError(String),
    Terminated(String),
}

pub enum ReplyView {
    Text(Seq<char>),
    ValueError(Seq<char>),
    Terminated(Seq<char>),
}

impl View for SubmitReply {
    type V = ReplyView;

    open spec fn view(&self) -> ReplyView {
        match self {
            SubmitReply::Text(t) => ReplyView::Text(t@),
            SubmitReply::ValueError(t) => ReplyView::ValueError(t@),
            SubmitReply::Terminated(t) => ReplyView::Terminated(t@),
        }
    }
}

/// How far a call comes by itself: to its reply, to an output whose constraints are to be looked
/// at, or to values that are no output.
#[derive(Debug)]
pub enum SubmitStep {
    Reply(SubmitReply),
    Check(BamlValue),
    Refuse(BamlParseError),
}

/// The lines of an error and, below it, the expected form.
pub open spec fn error_text(
    summary: Seq<char>,
    details: Seq<Seq<char>>,
    schema: Option<Seq<char>>,
) -> Seq<char> {
    "SubmitError: "@ + summary + (if details.len() == 0 {
        Seq::empty()
    } else {
        "\n"@ + text::join(
            Seq::new(details.len(), |i: int| "  - "@ + details[i]),
            "\n"@,
        )
    }) + (match schema {
        Some(s) => "\n\nExpected schema:\n"@ + s,
        None => Seq::empty(),
    })
}

fn format_submit_error(summary: &str, details: &Vec<String>, schema: Option<&str>) -> (r: String)
    ensures
        r@ == error_text(
            summary@,
            text::views(details@),
            match schema {
                Some(s) => Some(s@),
                None => None,
            },
        ),
{
    let mut out = "SubmitError: ".to_owned();
    out.append(summary);
    let ghost head = out@;
    if details.len() > 0 {
        let mut rows: Vec<String> = Vec::new();
        let mut i: usize = 0;
        while i < details.len()
            invariant
                i <= details@.len(),
                rows@.len() == i,
                forall|k: int| 0 <= k < i ==> (#[trigger] rows@[k])@ == "  - "@ + details@[k]@,
            decreases details@.len() - i,
        {
            let mut row = "  - ".to_owned();
            row.append(details[i].as_str());
            rows.push(row);
            i += 1;
        }
        proof {
            let d = text::views(details@);
            assert(text::views(rows@) =~= Seq::new(d.len(), |k: int| "  - "@ + d[k]));
        }
        out.append("\n");
        let joined = text::join_strs(&rows, "\n");
        out.append(joined.as_str());
        proof {
            assert(out@ =~= head + ("\n"@ + joined@));
        }
    } else {
        proof {
            assert(out@ =~= head + Seq::<char>::empty());
        }
    }
    let ghost middle = out@;
    match schema {
        Some(s) => {
            out.append("\n\nExpected schema:\n");
            out.append(s);
            proof {
                assert(out@ =~= middle + ("\n\nExpected schema:\n"@ + s@));
            }
        },
        None => {
            proof {
                assert(out@ =~= middle + Seq::<char>::empty());
            }
        },
    }
    out
}

/// How the call is written: each field set to a variable of its name.
pub open spec fn usage(names: Seq<Seq<char>>) -> Seq<char> {
    text::join(Seq::new(names.len(), |i: int| names[i] + "="@ + names[i]), ", "@)
}

fn format_submit_usage(fields: &Vec<String>) -> (r: String)
    ensures
        r@ == usage(text::views(fields@)),
{
    let mut parts: Vec<String> = Vec::new();
    let mut i: usize = 0;
    while i < fields.len()
        invariant
            i <= fields@.len(),
            parts@.len() == i,
            forall|k: int|
                0 <= k < i ==> (#[trigger] parts@[k])@ == fields@[k]@ + "="@ + fields@[k]@,
        decreases fields@.len() - i,
    {
        let mut part = fields[i].clone();
        part.append("=");
        part.append(fields[i].as_str());
        parts.push(part);
        i += 1;
    }
    proof {
        let n = text::views(fields@);
        assert(text::views(parts@) =~= Seq::new(n.len(), |k: int| n[k] + "="@ + n[k]));
    }
    text::join_strs(&parts, ", ")
}

/// A list of texts as `{:?}` prints it.
pub open spec fn debug_list(items: Seq<Seq<char>>) -> Seq<char> {
    "["@ + text::join(Seq::new(items.len(), |i: int| text::debug_text(items[i])), ", "@) + "]"@
}

fn debug_list_of(items: &Vec<String>) -> (r: String)
    ensures
        r@ == debug_list(text::views(items@)),
{
    let mut parts: Vec<String> = Vec::new();
    let mut i: usize = 0;
    while i < items.len()
        invariant
            i <= items@.len(),
            parts@.len() == i,
            forall|k: int|
                0 <= k < i ==> (#[trigger] parts@[k])@ == text::debug_text(items@[k]@),
        decreases items@.len() - i,
    {
        parts.push(text::debug_string(items[i].as_str()));
        i += 1;
    }
    proof {
        let n = text::views(items@);
        assert(text::views(parts@) =~= Seq::new(n.len(), |k: int| text::debug_text(n[k])));
    }
    let joined = text::join_strs(&parts, ", ");
    let mut out = "[".to_owned();
    out.append(joined.as_str());
    out.append("]");
    out
}

/// Where the first backtick stands, or the length.
pub open spec fn tick_index(s: Seq<char>) -> nat
    decreases s.len(),
{
    if s.len() == 0 || s[0] == '`' {
        0
    } else {
        1 + tick_index(s.skip(1))
    }
}

proof fn lemma_tick_index(s: Seq<char>)
    ensures
        tick_index(s) <= s.len(),
    decreases s.len(),
{
    if s.len() > 0 && s[0] != '`' {
        lemma_tick_index(s.skip(1));
    }
}

/// What is behind the token that ends at `k`.
pub open spec fn behind(s: Seq<char>, k: int) -> Seq<char> {
    if k < s.len() {
        s.skip(k + 1)
    } else {
        Seq::empty()
    }
}

/// A text in which what stands between backticks is cut down to its last name.
pub open spec fn simplified(s: Seq<char>) -> Seq<char>
    decreases s.len(),
    via simplified_decreases
{
    if s.len() == 0 {
        Seq::empty()
    } else if s[0] == '`' {
        let rest = s.skip(1);
        let k = tick_index(rest) as int;
        types::last_part(rest.take(k), "::"@) + simplified(behind(rest, k))
    } else {
        seq![s[0]] + simplified(s.skip(1))
    }
}

#[via_fn]
proof fn simplified_decreases(s: Seq<char>) {
    if s.len() > 0 {
        lemma_tick_index(s.skip(1));
    }
}

fn simplify_type_name(raw: &str) -> (r: String)
    ensures
        r@ == simplified(raw@),
{
    let c = text::chars_of(raw);
    let n = c.len();
    let sep = text::chars_of("::");
    let mut out = String::new();
    let mut i: usize = 0;
    proof {
        assert(c@.skip(0) =~= c@);
        assert(out@ + simplified(c@) =~= simplified(c@));
    }
    while i < n
        invariant
            i <= n,
            n == c@.len(),
            c@ == raw@,
            sep@ == "::"@,
            out@ + simplified(c@.skip(i as int)) == simplified(raw@),
        decreases n - i,
    {
        let ghost rest = c@.skip(i as int);
        let ghost before = out@;
        if c[i] == '`' {
            let mut e: usize = i + 1;
            let ghost inner = rest.skip(1);
            proof {
                assert(c@.skip(e as int) =~= inner);
                lemma_tick_index(inner);
            }
            while e < n && c[e] != '`'
                invariant
                    i + 1 <= e <= n,
                    n == c@.len(),
                    inner == c@.skip(i + 1),
                    tick_index(inner) == (e - i - 1) + tick_index(c@.skip(e as int)),
                decreases n - e,
            {
                proof {
                    assert(c@.skip(e as int).skip(1) =~= c@.skip(e + 1));
                }
                e += 1;
            }
            let ghost k = tick_index(inner) as int;
            proof {
                assert(k == e - i - 1);
            }
            let token = &c[i + 1..e];
            proof {
                assert(token@ =~= inner.take(k));
            }
            let last = last_part_of(token, &sep);
            out.append(last.as_str());
            let next = if e < n {
                e + 1
            } else {
                n
            };
            proof {
                assert(behind(inner, k) =~= c@.skip(next as int));
                assert(out@ + simplified(c@.skip(next as int)) =~= before + simplified(rest));
            }
            i = next;
        } else {
            out.push(c[i]);
            proof {
                assert(rest.skip(1) =~= c@.skip(i + 1));
                assert(out@ + simplified(c@.skip(i + 1)) =~= before + simplified(rest));
            }
            i += 1;
        }
    }
    proof {
        assert(c@.skip(i as int).len() == 0);
        assert(out@ + Seq::<char>::empty() =~= out@);
    }
    out
}

/// The name of a type in the description of the call.
pub open spec fn type_text(shown: Seq<char>) -> Seq<char> {
    let a = text::replace_all(simplified(shown), "class "@, Seq::empty());
    let b = text::replace_all(a, "enum "@, Seq::empty());
    text::trim(text::replace_all(b, " | "@, " or "@))
}

fn format_type_name(shown: &str) -> (r: String)
    ensures
        r@ == type_text(shown@),
{
    proof {
        reveal_strlit("class ");
        reveal_strlit("enum ");
        reveal_strlit(" | ");
        reveal_strlit("");
        assert(""@ =~= Seq::<char>::empty());
    }
    let s = simplify_type_name(shown);
    let a = text::replace_str(s.as_str(), "class ", "");
    let b = text::replace_str(a.as_str(), "enum ", "");
    let c = text::replace_str(b.as_str(), " | ", " or ");
    text::trim_str(c.as_str())
}

pub open spec fn constraint_row(c: Constraint) -> Seq<char> {
    "    ["@ + (match c.kind {
        ConstraintKind::Check => "check"@,
        ConstraintKind::Assert => "ASSERT"@,
    }) + "] "@ + (if c.label@.len() == 0 {
        Seq::empty()
    } else {
        c.label@ + ": "@
    }) + c.expression@ + "\n"@
}

/// The rows of the first `n` constraints.
pub open spec fn constraint_rows(c: Seq<Constraint>, n: nat) -> Seq<char>
    decreases n,
{
    if n == 0 || n > c.len() {
        Seq::empty()
    } else {
        constraint_rows(c, (n - 1) as nat) + constraint_row(c[n - 1])
    }
}

/// The rows of a field: its name, its type and what is said of it, and its constraints.
pub open spec fn field_rows(f: FieldSchema) -> Seq<char> {
    "  "@ + f.lm_name@ + ": "@ + type_text(f.type_repr@) + (if f.docs@.len() == 0 {
        Seq::empty()
    } else {
        "  # "@ + f.docs@
    }) + "\n"@ + constraint_rows(f.constraints@, f.constraints@.len())
}

/// The rows of the first `n` fields.
pub open spec fn schema_rows(fields: Seq<FieldSchema>, n: nat) -> Seq<char>
    decreases n,
{
    if n == 0 || n > fields.len() {
        Seq::empty()
    } else {
        schema_rows(fields, (n - 1) as nat) + field_rows(fields[n - 1])
    }
}

pub open spec fn lm_names(fields: Seq<FieldSchema>) -> Seq<Seq<char>> {
    Seq::new(fields.len(), |i: int| fields[i].lm_name@)
}

/// What the call takes.
pub open spec fn description(fields: Seq<FieldSchema>) -> Seq<char> {
    if fields.len() == 0 {
        Seq::empty()
    } else {
        text::trim_end(
            "SUBMIT("@ + text::join(lm_names(fields), ", "@) + ") where:\n"@ + schema_rows(
                fields,
                fields.len(),
            ),
        )
    }
}

fn push_constraint(out: &mut String, c: &Constraint)
    ensures
        final(out)@ == old(out)@ + constraint_row(*c),
{
    let ghost start = out@;
    let mut row = "    [".to_owned();
    match c.kind {
        ConstraintKind::Check => row.append("check"),
        ConstraintKind::Assert => row.append("ASSERT"),
    }
    row.append("] ");
    let ghost head = row@;
    if !c.label.as_str().is_empty() {
        row.append(c.label.as_str());
        row.append(": ");
        proof {
            assert(row@ =~= head + (c.label@ + ": "@));
        }
    } else {
        proof {
            assert(row@ =~= head + Seq::<char>::empty());
        }
    }
    row.append(c.expression.as_str());
    row.append("\n");
    out.append(row.as_str());
}

fn push_field(out: &mut String, f: &FieldSchema)
    ensures
        final(out)@ == old(out)@ + field_rows(*f),
{
    let ghost start = out@;
    let kind = format_type_name(f.type_repr.as_str());
    let mut rows = "  ".to_owned();
    rows.append(f.lm_name.as_str());
    rows.append(": ");
    rows.append(kind.as_str());
    let ghost head = rows@;
    if !f.docs.as_str().is_empty() {
        rows.append("  # ");
        rows.append(f.docs.as_str());
        proof {
            assert(rows@ =~= head + ("  # "@ + f.docs@));
        }
    } else {
        proof {
            assert(rows@ =~= head + Seq::<char>::empty());
        }
    }
    rows.append("\n");
    let ghost line = rows@;
    let mut i: usize = 0;
    proof {
        assert(rows@ =~= line + constraint_rows(f.constraints@, 0));
    }
    while i < f.constraints.len()
        invariant
            i <= f.constraints@.len(),
            rows@ == line + constraint_rows(f.constraints@, i as nat),
        decreases f.constraints@.len() - i,
    {
        push_constraint(&mut rows, &f.constraints[i]);
        proof {
            assert(rows@ =~= line + constraint_rows(f.constraints@, (i + 1) as nat));
        }
        i += 1;
    }
    out.append(rows.as_str());
}

fn list_lm_names(fields: &Vec<FieldSchema>) -> (r: Vec<String>)
    ensures
        text::views(r@) == lm_names(fields@),
{
    let mut out: Vec<String> = Vec::new();
    let mut i: usize = 0;
    while i < fields.len()
        invariant
            i <= fields@.len(),
            out@.len() == i,
            forall|k: int| 0 <= k < i ==> (#[trigger] out@[k])@ == fields@[k].lm_name@,
        decreases fields@.len() - i,
    {
        out.push(fields[i].lm_name.clone());
        i += 1;
    }
    proof {
        assert(text::views(out@) =~= lm_names(fields@));
    }
    out
}

/// What the call takes, for the fields of an output.
pub fn generate_schema_description(fields: &Vec<FieldSchema>) -> (r: String)
    ensures
        r@ == description(fields@),
{
    if fields.len() == 0 {
        return String::new();
    }
    let names = list_lm_names(fields);
    let joined = text::join_strs(&names, ", ");
    let mut out = "SUBMIT(".to_owned();
    out.append(joined.as_str());
    out.append(") where:\n");
    let ghost head = out@;
    let mut i: usize = 0;
    proof {
        assert(out@ =~= head + schema_rows(fields@, 0));
    }
    while i < fields.len()
        invariant
            i <= fields@.len(),
            out@ == head + schema_rows(fields@, i as nat),
        decreases fields@.len() - i,
    {
        push_field(&mut out, &fields[i]);
        proof {
            assert(out@ =~= head + schema_rows(fields@, (i + 1) as nat));
        }
        i += 1;
    }
    text::trim_end_str(out.as_str())
}

/// The keys that are no text, and why, up to the first such key.
pub open spec fn bad_key(kwargs: Seq<(PyObject, PyObject)>, i: int) -> Option<Seq<char>>
    decreases kwargs.len() - i,
{
    if i < 0 || i >= kwargs.len() {
        None
    } else {
        match kwargs[i].0.text {
            Ok(_) => bad_key(kwargs, i + 1),
            Err(e) => Some(e@),
        }
    }
}

/// A text put behind those that are not greater.
pub open spec fn insert_text(list: Seq<Seq<char>>, t: Seq<char>) -> Seq<Seq<char>>
    decreases list.len(),
{
    if list.len() == 0 || !text::lex_less(t, list.last()) {
        list.push(t)
    } else {
        insert_text(list.drop_last(), t).push(list.last())
    }
}

/// The keys among the first `n` that name no field, in order.
pub open spec fn unexpected(
    names: Seq<Seq<char>>,
    kwargs: Seq<(PyObject, PyObject)>,
    n: nat,
) -> Seq<Seq<char>>
    decreases n,
{
    if n == 0 || n > kwargs.len() {
        Seq::empty()
    } else {
        let before = unexpected(names, kwargs, (n - 1) as nat);
        match kwargs[n - 1].0.text {
            Ok(t) => if names.contains(t@) {
                before
            } else {
                insert_text(before, t@)
            },
            Err(_) => before,
        }
    }
}

/// The first `n` fields that have no key, in the order of the fields.
pub open spec fn missing(
    names: Seq<Seq<char>>,
    kwargs: Seq<(PyObject, PyObject)>,
    n: nat,
) -> Seq<Seq<char>>
    decreases n,
{
    if n == 0 || n > names.len() {
        Seq::empty()
    } else {
        let before = missing(names, kwargs, (n - 1) as nat);
        if py_bridge::key_index(kwargs, names[n - 1], 0) < kwargs.len() {
            before
        } else {
            before.push(names[n - 1])
        }
    }
}

/// What is said of keys that are missing or not expected.
pub open spec fn key_errors(
    names: Seq<Seq<char>>,
    absent: Seq<Seq<char>>,
    extra: Seq<Seq<char>>,
) -> Seq<Seq<char>> {
    (if absent.len() > 0 {
        seq!["missing fields: "@ + debug_list(absent)]
    } else {
        Seq::empty()
    }) + (if extra.len() > 0 {
        seq!["unexpected fields: "@ + debug_list(extra)]
    } else {
        Seq::empty()
    }) + seq!["use SUBMIT("@ + usage(names) + ")"@]
}

pub open spec fn key_message(absent: Seq<Seq<char>>, extra: Seq<Seq<char>>) -> Seq<char> {
    if extra.len() == 0 {
        "Missing output fields"@
    } else if absent.len() == 0 {
        "Unexpected output fields"@
    } else {
        "Invalid output fields"@
    }
}

fn place_text(list: &mut Vec<String>, t: &str)
    ensures
        text::views(final(list)@) == insert_text(text::views(old(list)@), t@),
{
    let ghost prior = text::views(list@);
    let mut p: usize = list.len();
    proof {
        assert(prior.take(p as int) =~= prior);
        assert(insert_text(prior, t@) =~= insert_text(prior.take(p as int), t@) + prior.skip(
            p as int,
        ));
    }
    while p > 0 && text::str_less(t, list[p - 1].as_str())
        invariant
            p <= list@.len(),
            prior == text::views(list@),
            insert_text(prior, t@) == insert_text(prior.take(p as int), t@) + prior.skip(p as int),
        decreases p,
    {
        proof {
            let head = prior.take(p as int);
            assert(head.last() == list@[p - 1]@);
            assert(head.drop_last() =~= prior.take(p - 1));
            assert(insert_text(prior.take(p - 1), t@).push(head.last()) + prior.skip(p as int)
                =~= insert_text(prior.take(p - 1), t@) + prior.skip(p - 1));
        }
        p -= 1;
    }
    proof {
        let head = prior.take(p as int);
        if p > 0 {
            assert(head.last() == list@[p - 1]@);
        }
        assert(insert_text(head, t@) == head.push(t@));
        assert(head.push(t@) + prior.skip(p as int) =~= prior.insert(p as int, t@));
    }
    list.insert(p, t.to_owned());
    proof {
        assert(text::views(list@) =~= prior.insert(p as int, t@));
    }
}

fn unexpected_keys(names: &Vec<String>, kwargs: &Vec<(PyObject, PyObject)>) -> (r: Result<
    Vec<String>,
    String,
>)
    ensures
        match r {
            Ok(list) => bad_key(kwargs@, 0) is None && text::views(list@) == unexpected(
                text::views(names@),
                kwargs@,
                kwargs@.len(),
            ),
            Err(e) => bad_key(kwargs@, 0) == Some(e@),
        },
{
    let mut out: Vec<String> = Vec::new();
    let mut i: usize = 0;
    proof {
        assert(text::views(out@) =~= Seq::empty());
    }
    while i < kwargs.len()
        invariant
            i <= kwargs@.len(),
            bad_key(kwargs@, 0) == bad_key(kwargs@, i as int),
            text::views(out@) == unexpected(text::views(names@), kwargs@, i as nat),
        decreases kwargs@.len() - i,
    {
        match &kwargs[i].0.text {
            Ok(t) => {
                if !text::contains_text(names, t.as_str()) {
                    place_text(&mut out, t.as_str());
                }
            },
            Err(e) => {
                return Err(e.clone());
            },
        }
        i += 1;
    }
    Ok(out)
}

fn missing_keys(names: &Vec<String>, kwargs: &Vec<(PyObject, PyObject)>) -> (r: Vec<String>)
    ensures
        text::views(r@) == missing(text::views(names@), kwargs@, names@.len()),
{
    let mut out: Vec<String> = Vec::new();
    let mut i: usize = 0;
    proof {
        assert(text::views(out@) =~= Seq::empty());
    }
    while i < names.len()
        invariant
            i <= names@.len(),
            text::views(out@) == missing(text::views(names@), kwargs@, i as nat),
        decreases names@.len() - i,
    {
        let ghost prior = text::views(out@);
        if find_key(kwargs, names[i].as_str()) >= kwargs.len() {
            out.push(names[i].clone());
            proof {
                assert(text::views(out@) =~= prior.push(names@[i as int]@));
            }
        }
        i += 1;
    }
    out
}

/// The name under which the first part of a path is handed in.
pub open spec fn key_name(fields: Seq<FieldSchema>, first: Seq<char>, i: int) -> Seq<char>
    decreases fields.len() - i,
{
    if i < 0 || i >= fields.len() {
        first
    } else if fields[i].rust_name@ == first || fields[i].lm_name@ == first {
        fields[i].lm_name@
    } else {
        key_name(fields, first, i + 1)
    }
}

/// How the value that an error is about shows itself.
pub open spec fn value_repr(
    fields: Seq<FieldSchema>,
    kwargs: Seq<(PyObject, PyObject)>,
    path: Seq<Seq<char>>,
) -> Option<Seq<char>> {
    if path.len() == 0 {
        None
    } else {
        let i = py_bridge::key_index(kwargs, key_name(fields, path[0], 0), 0);
        if i < kwargs.len() {
            text::opt_view(kwargs[i].1.repr)
        } else {
            None
        }
    }
}

/// What is said of a value that could not be converted.
pub open spec fn convert_detail(
    fields: Seq<FieldSchema>,
    kwargs: Seq<(PyObject, PyObject)>,
    path: Seq<Seq<char>>,
    expected: Seq<char>,
    got: Seq<char>,
    message: Seq<char>,
) -> Seq<char> {
    if expected == "field"@ && got == "missing"@ {
        "missing required field: "@ + text::join(path, "."@)
    } else {
        let wanted = text::trim(
            if text::has_prefix(message, "expected "@) {
                message.skip("expected "@.len() as int)
            } else {
                expected
            },
        );
        "field '"@ + text::join(path, "."@) + "' expected "@ + wanted + ", got "@ + got + (
        match value_repr(fields, kwargs, path) {
            Some(shown) => " "@ + shown,
            None => Seq::empty(),
        })
    }
}

/// The details of an error that is no failed assertion.
pub open spec fn details(
    fields: Seq<FieldSchema>,
    kwargs: Seq<(PyObject, PyObject)>,
    e: ParseErrorView,
) -> Seq<Seq<char>> {
    match e {
        ParseErrorView::Convert { path, expected, got, message } => seq![
            convert_detail(fields, kwargs, path, expected, got, message),
        ],
        ParseErrorView::Jsonish(m) => seq![m],
        ParseErrorView::AssertsFailed(_) => Seq::empty(),
    }
}

fn first_path_value_repr(
    fields: &Vec<FieldSchema>,
    kwargs: &Vec<(PyObject, PyObject)>,
    path: &Vec<String>,
) -> (r: Option<String>)
    ensures
        text::opt_view(r) == value_repr(fields@, kwargs@, text::views(path@)),
{
    if path.len() == 0 {
        return None;
    }
    let first = path[0].as_str();
    let mut name = first;
    let mut i: usize = 0;
    proof {
        assert(text::views(path@)[0] == first@);
    }
    while i < fields.len()
        invariant_except_break
            name@ == first@,
        invariant
            i <= fields@.len(),
            key_name(fields@, first@, 0) == key_name(fields@, first@, i as int),
        ensures
            name@ == key_name(fields@, first@, 0),
        decreases fields@.len() - i,
    {
        if text::text_eq(fields[i].rust_name.as_str(), first) || text::text_eq(
            fields[i].lm_name.as_str(),
            first,
        ) {
            name = fields[i].lm_name.as_str();
            break;
        }
        i += 1;
    }
    let at = find_key(kwargs, name);
    if at < kwargs.len() {
        match &kwargs[at].1.repr {
            Some(shown) => Some(shown.clone()),
            None => None,
        }
    } else {
        None
    }
}

fn format_convert_error(
    fields: &Vec<FieldSchema>,
    kwargs: &Vec<(PyObject, PyObject)>,
    err: &BamlConvertError,
) -> (r: String)
    ensures
        r@ == convert_detail(
            fields@,
            kwargs@,
            text::views(err.path@),
            err.expected@,
            err.got@,
            err.message@,
        ),
{
    let path = err.path_string();
    if text::text_eq(err.expected.as_str(), "field") && text::text_eq(
        err.got.as_str(),
        "missing",
    ) {
        let mut out = "missing required field: ".to_owned();
        out.append(path.as_str());
        return out;
    }
    let c = text::chars_of(err.message.as_str());
    let n = c.len();
    let wanted = if text::starts_with_str(err.message.as_str(), "expected ") {
        let prefix = text::chars_of("expected ");
        let k = prefix.len();
        let rest = &c[k..n];
        proof {
            assert(rest@ =~= err.message@.skip("expected "@.len() as int));
        }
        text::string_of(rest)
    } else {
        err.expected.clone()
    };
    let trimmed = text::trim_str(wanted.as_str());
    let mut out = "field '".to_owned();
    out.append(path.as_str());
    out.append("' expected ");
    out.append(trimmed.as_str());
    out.append(", got ");
    out.append(err.got.as_str());
    let ghost head = out@;
    match first_path_value_repr(fields, kwargs, &err.path) {
        Some(shown) => {
            out.append(" ");
            out.append(shown.as_str());
            proof {
                assert(out@ =~= head + (" "@ + shown@));
            }
        },
        None => {
            proof {
                assert(out@ =~= head + Seq::<char>::empty());
            }
        },
    }
    out
}

/// What a refused output leaves in the slot and gives as a reply. `message` is how the error reads.
/// `None` in the first place leaves the slot as it is.
pub open spec fn refusal(
    fields: Seq<FieldSchema>,
    kwargs: Seq<(PyObject, PyObject)>,
    e: ParseErrorView,
    message: Seq<char>,
) -> (Option<SubmitErrorView>, ReplyView) {
    match e {
        ParseErrorView::AssertsFailed(failed) => if failed.len() == 0 {
            (None, ReplyView::ValueError("SUBMIT assertion failed with no details"@))
        } else {
            (
                Some(
                    SubmitErrorView::AssertionFailed {
                        label: failed[0].name@,
                        expression: failed[0].expression@,
                    },
                ),
                ReplyView::Text(
                    error_text(
                        "Assertion failed"@,
                        seq![
                            "'"@ + failed[0].name@ + "': "@ + failed[0].expression@
                                + " (please fix and try again)"@,
                        ],
                        None,
                    ),
                ),
            )
        },
        _ => (
            Some(
                SubmitErrorView::ValidationError {
                    message,
                    errors: details(fields, kwargs, e),
                },
            ),
            ReplyView::Text(
                error_text(
                    "Validation failed"@,
                    details(fields, kwargs, e),
                    if description(fields).len() == 0 {
                        None
                    } else {
                        Some(description(fields))
                    },
                ),
            ),
        ),
    }
}

/// What is known of an accepted output as a whole.
pub open spec fn root_meta(raw: Seq<char>, checks: Seq<ResponseCheck>) -> FieldMetaView {
    FieldMetaView {
        raw_text: raw,
        flags: Seq::empty(),
        checks: Seq::new(
            checks.len(),
            |i: int|
                ConstraintView {
                    label: checks[i].name@,
                    expression: checks[i].expression@,
                    passed: checks[i].status@ == "succeeded"@,
                },
        ),
    }
}

fn build_field_metas(checks: &Vec<ResponseCheck>, raw_json: String) -> (r: IndexMap<
    String,
    FieldMeta,
>)
    ensures
        metadata::field_metas(r) == seq![("_root"@, root_meta(raw_json@, checks@))],
{
    let mut kept: Vec<ConstraintResult> = Vec::new();
    let mut i: usize = 0;
    while i < checks.len()
        invariant
            i <= checks@.len(),
            kept@.len() == i,
            forall|k: int|
                0 <= k < i ==> (#[trigger] kept@[k])@ == (ConstraintView {
                    label: checks@[k].name@,
                    expression: checks@[k].expression@,
                    passed: checks@[k].status@ == "succeeded"@,
                }),
        decreases checks@.len() - i,
    {
        kept.push(
            ConstraintResult {
                label: checks[i].name.clone(),
                expression: checks[i].expression.clone(),
                passed: text::text_eq(checks[i].status.as_str(), "succeeded"),
            },
        );
        i += 1;
    }
    let meta = FieldMeta { raw_text: raw_json, flags: Vec::new(), checks: kept };
    let ghost shown = meta@;
    proof {
        assert(shown.flags =~= Seq::empty());
        assert(shown.checks =~= root_meta(raw_json@, checks@).checks);
    }
    let mut metas = no_metas();
    insert_meta(&mut metas, "_root".to_owned(), meta);
    proof {
        assert(metadata::field_metas(metas) =~= seq![("_root"@, shown)]);
    }
    metas
}

/// What a call hands in: the fields of the output and how they are described.
#[derive(Debug)]
pub struct SubmitHandler {
    pub fields: Vec<FieldSchema>,
    pub format: OutputFormat,
    pub schema_description: String,
    pub output_fields_lm: Vec<String>,
}

impl SubmitHandler {
    pub open spec fn wf(self) -> bool {
        self.schema_description@ == description(self.fields@) && text::views(self.output_fields_lm@)
            == lm_names(self.fields@)
    }

    pub fn new(fields: Vec<FieldSchema>, format: OutputFormat) -> (r: Self)
        ensures
            r.wf(),
            r.fields == fields,
            r.format == format,
    {
        let schema_description = generate_schema_description(&fields);
        let output_fields_lm = list_lm_names(&fields);
        SubmitHandler { fields, format, schema_description, output_fields_lm }
    }

    /// A handler, and an empty slot for it.
    pub fn with_new_slot(fields: Vec<FieldSchema>, format: OutputFormat) -> (r: (Self, SubmitSlot))
        ensures
            r.0.wf(),
            r.0.fields == fields,
            r.0.format == format,
            r.1.stored is None,
    {
        (SubmitHandler::new(fields, format), SubmitSlot::new())
    }

    /// What the call takes.
    pub fn schema(&self) -> (r: String)
        requires
            self.wf(),
        ensures
            r@ == description(self.fields@),
    {
        self.schema_description.clone()
    }

    fn refuse(
        &self,
        err: BamlParseError,
        message: String,
        kwargs: &Vec<(PyObject, PyObject)>,
        slot: &mut SubmitSlot,
    ) -> (r: SubmitReply)
        requires
            self.wf(),
        ensures
            r@ == refusal(self.fields@, kwargs@, err@, message@).1,
            match refusal(self.fields@, kwargs@, err@, message@).0 {
                Some(e) => final(slot).stored matches Some(Err(k)) && k@ == e,
                None => *final(slot) == *old(slot),
            },
    {
        match err {
            BamlParseError::ConstraintAssertsFailed { failed } => {
                if failed.len() == 0 {
                    return SubmitReply::ValueError(
                        "SUBMIT assertion failed with no details".to_owned(),
                    );
                }
                let failure = &failed[0];
                let mut detail = "'".to_owned();
                detail.append(failure.name.as_str());
                detail.append("': ");
                detail.append(failure.expression.as_str());
                detail.append(" (please fix and try again)");
                let mut list: Vec<String> = Vec::new();
                let ghost shown = detail@;
                list.push(detail);
                proof {
                    assert(text::views(list@) =~= seq![shown]);
                }
                slot.stored = Some(
                    Err(
                        SubmitError::AssertionFailed {
                            label: failure.name.clone(),
                            expression: failure.expression.clone(),
                        },
                    ),
                );
                SubmitReply::Text(format_submit_error("Assertion failed", &list, None))
            },
            BamlParseError::Convert(e) => {
                let mut errors: Vec<String> = Vec::new();
                let detail = format_convert_error(&self.fields, kwargs, &e);
                let ghost shown = detail@;
                errors.push(detail);
                proof {
                    assert(text::views(errors@) =~= seq![shown]);
                }
                self.refuse_as_invalid(message, errors, slot)
            },
            BamlParseError::Jsonish(m) => {
                let mut errors: Vec<String> = Vec::new();
                let ghost shown = m@;
                errors.push(m);
                proof {
                    assert(text::views(errors@) =~= seq![shown]);
                }
                self.refuse_as_invalid(message, errors, slot)
            },
        }
    }

    fn refuse_as_invalid(&self, message: String, errors: Vec<String>, slot: &mut SubmitSlot) -> (r:
        SubmitReply)
        requires
            self.wf(),
        ensures
            r@ == ReplyView::Text(
                error_text(
                    "Validation failed"@,
                    text::views(errors@),
                    if description(self.fields@).len() == 0 {
                        None
                    } else {
                        Some(description(self.fields@))
                    },
                ),
            ),
            final(slot).stored matches Some(Err(k)) && k@ == (SubmitErrorView::ValidationError {
                message: message@,
                errors: text::views(errors@),
            }),
    {
        let expected = if self.schema_description.as_str().is_empty() {
            None
        } else {
            Some(self.schema_description.as_str())
        };
        let reply = format_submit_error("Validation failed", &errors, expected);
        slot.stored = Some(Err(SubmitError::ValidationError { message, errors }));
        SubmitReply::Text(reply)
    }

    /// What a call comes to before any constraint is looked at: the reply to it and what the slot
    /// then keeps, or what its values are as an output.
    pub open spec fn called(
        self,
        kwargs: Option<Seq<(PyObject, PyObject)>>,
    ) -> Result<Result<BamlView, ParseErrorView>, (Option<SubmitErrorView>, ReplyView)> {
        match kwargs {
            None => Err(
                (
                    None,
                    ReplyView::ValueError(
                        "SUBMIT requires keyword arguments. Usage: SUBMIT(field1=value1, field2=value2)"@,
                    ),
                ),
            ),
            Some(k) => {
                let names = lm_names(self.fields@);
                let extra = unexpected(names, k, k.len());
                let absent = missing(names, k, names.len());
                match bad_key(k, 0) {
                    Some(e) => Err((None, ReplyView::ValueError(e))),
                    None => if absent.len() > 0 || extra.len() > 0 {
                        Err(
                            (
                                Some(
                                    SubmitErrorView::ValidationError {
                                        message: key_message(absent, extra),
                                        errors: key_errors(names, absent, extra),
                                    },
                                ),
                                ReplyView::Text(
                                    error_text(
                                        "Validation failed"@,
                                        key_errors(names, absent, extra),
                                        None,
                                    ),
                                ),
                            ),
                        )
                    } else {
                        Ok(py_bridge::output_of(self.fields@, k, self.format))
                    },
                }
            },
        }
    }

    /// Handles a call: its keys are held against the fields, and its values are converted.
    pub fn call(&self, kwargs: Option<&Vec<(PyObject, PyObject)>>, slot: &mut SubmitSlot) -> (r:
        SubmitStep)
        requires
            self.wf(),
        ensures
            match self.called(
                match kwargs {
                    Some(k) => Some(k@),
                    None => None,
                },
            ) {
                Ok(Ok(v)) => r matches SubmitStep::Check(b) && b@ == v && *final(slot) == *old(slot),
                Ok(Err(e)) => r matches SubmitStep::Refuse(x) && x@ == e && *final(slot) == *old(slot),
                Err((kept, reply)) => {
                    &&& r matches SubmitStep::Reply(t) && t@ == reply
                    &&& match kept {
                        Some(e) => final(slot).stored matches Some(Err(k)) && k@ == e,
                        None => *final(slot) == *old(slot),
                    }
                },
            },
    {
        let kwargs = match kwargs {
            Some(k) => k,
            None => {
                return SubmitStep::Reply(
                    SubmitReply::ValueError(
                        "SUBMIT requires keyword arguments. Usage: SUBMIT(field1=value1, field2=value2)".to_owned(),
                    ),
                );
            },
        };
        let extra = match unexpected_keys(&self.output_fields_lm, kwargs) {
            Ok(list) => list,
            Err(e) => {
                return SubmitStep::Reply(SubmitReply::ValueError(e));
            },
        };
        let absent = missing_keys(&self.output_fields_lm, kwargs);
        if absent.len() > 0 || extra.len() > 0 {
            let ghost names = lm_names(self.fields@);
            let ghost a = text::views(absent@);
            let ghost x = text::views(extra@);
            let mut errors: Vec<String> = Vec::new();
            if absent.len() > 0 {
                let mut line = "missing fields: ".to_owned();
                let list = debug_list_of(&absent);
                line.append(list.as_str());
                errors.push(line);
            }
            if extra.len() > 0 {
                let mut line = "unexpected fields: ".to_owned();
                let list = debug_list_of(&extra);
                line.append(list.as_str());
                errors.push(line);
            }
            let mut hint = "use SUBMIT(".to_owned();
            let how = format_submit_usage(&self.output_fields_lm);
            hint.append(how.as_str());
            hint.append(")");
            errors.push(hint);
            proof {
                assert(text::views(errors@) =~= key_errors(names, a, x));
            }
            let message = if extra.len() == 0 {
                "Missing output fields".to_owned()
            } else if absent.len() == 0 {
                "Unexpected output fields".to_owned()
            } else {
                "Invalid output fields".to_owned()
            };
            let reply = format_submit_error("Validation failed", &errors, None);
            slot.stored = Some(Err(SubmitError::ValidationError { message, errors }));
            return SubmitStep::Reply(SubmitReply::Text(reply));
        }
        match kwargs_to_baml_value(&self.fields, &self.format, kwargs) {
            Ok(v) => SubmitStep::Check(v),
            Err(e) => SubmitStep::Refuse(e),
        }
    }

    /// Ends a call with its output and what the constraints of it come to, or with why there is
    /// none. `shown` is the output as JSON, or how the error reads.
    pub fn conclude(
        &self,
        kwargs: &Vec<(PyObject, PyObject)>,
        parsed: Result<(BamlValue, Vec<ResponseCheck>), BamlParseError>,
        shown: String,
        slot: &mut SubmitSlot,
    ) -> (r: SubmitReply)
        requires
            self.wf(),
        ensures
            match parsed {
                Ok((value, checks)) => {
                    &&& r@ == ReplyView::Terminated("SUBMIT accepted"@)
                    &&& final(slot).stored matches Some(Ok(kept)) && kept.0 == value
                        && metadata::field_metas(kept.1) == seq![
                        ("_root"@, root_meta(shown@, checks@)),
                    ]
                },
                Err(e) => {
                    &&& r@ == refusal(self.fields@, kwargs@, e@, shown@).1
                    &&& match refusal(self.fields@, kwargs@, e@, shown@).0 {
                        Some(k) => final(slot).stored matches Some(Err(x)) && x@ == k,
                        None => *final(slot) == *old(slot),
                    }
                },
            },
    {
        match parsed {
            Ok((value, checks)) => {
                let metas = build_field_metas(&checks, shown);
                slot.stored = Some(Ok((value, metas)));
                SubmitReply::Terminated("SUBMIT accepted".to_owned())
            },
            Err(e) => self.refuse(e, shown, kwargs, slot),
        }
    }
}

proof fn lemma_field_rows(fields: Seq<FieldSchema>, n: nat, i: int)
    requires
        0 <= i < n <= fields.len(),
    ensures
        text::has_text(schema_rows(fields, n), field_rows(fields[i])),
    decreases n,
{
    let before = schema_rows(fields, (n - 1) as nat);
    text_laws::lemma_ends(before, field_rows(fields[n - 1]));
    if i < n - 1 {
        lemma_field_rows(fields, (n - 1) as nat, i);
        text_laws::lemma_within(schema_rows(fields, n), before, field_rows(fields[i]));
    }
}

proof fn lemma_constraint_rows(c: Seq<Constraint>, n: nat, i: int)
    requires
        0 <= i < n <= c.len(),
    ensures
        text::has_text(constraint_rows(c, n), constraint_row(c[i])),
    decreases n,
{
    let before = constraint_rows(c, (n - 1) as nat);
    text_laws::lemma_ends(before, constraint_row(c[n - 1]));
    if i < n - 1 {
        lemma_constraint_rows(c, (n - 1) as nat, i);
        text_laws::lemma_within(constraint_rows(c, n), before, constraint_row(c[i]));
    }
}

proof fn lemma_field_row_holds(f: FieldSchema, j: int)
    ensures
        text::has_text(field_rows(f), "  "@ + f.lm_name@ + ": "@ + type_text(f.type_repr@)),
        0 <= j < f.constraints@.len() ==> text::has_text(
            field_rows(f),
            f.constraints@[j].expression@,
        ),
{
    let p = "  "@ + f.lm_name@ + ": "@ + type_text(f.type_repr@);
    let d = if f.docs@.len() == 0 {
        Seq::empty()
    } else {
        "  # "@ + f.docs@
    };
    let rows = constraint_rows(f.constraints@, f.constraints@.len());
    text_laws::lemma_ends(p + d + "\n"@, rows);
    text_laws::lemma_grouped(p, d, "\n"@);
    text_laws::lemma_grouped(p, d + "\n"@, rows);
    text_laws::lemma_ends(p, d + "\n"@ + rows);
    if 0 <= j < f.constraints@.len() {
        let c = f.constraints@[j];
        lemma_constraint_rows(f.constraints@, f.constraints@.len(), j);
        let kind = match c.kind {
            ConstraintKind::Check => "check"@,
            ConstraintKind::Assert => "ASSERT"@,
        };
        let label = if c.label@.len() == 0 {
            Seq::empty()
        } else {
            c.label@ + ": "@
        };
        text_laws::lemma_inside("    ["@ + kind + "] "@ + label, c.expression@, "\n"@);
        text_laws::lemma_within(rows, constraint_row(c), c.expression@);
        text_laws::lemma_within(field_rows(f), rows, c.expression@);
    }
}

/// What the call takes is described field by field: each with its name and its type, and every
/// constraint on it. White space at the very end is left out.
pub proof fn every_output_field_is_described(fields: &Vec<FieldSchema>, r: String, i: int, j: int)
    requires
        call_ensures(generate_schema_description, (fields,), r),
        0 <= i < fields@.len(),
    ensures
        text::has_text(
            r@,
            text::trim_end(
                "  "@ + fields@[i].lm_name@ + ": "@ + type_text(fields@[i].type_repr@),
            ),
        ),
        0 <= j < fields@[i].constraints@.len() ==> text::has_text(
            r@,
            text::trim_end(fields@[i].constraints@[j].expression@),
        ),
        text::has_text(r@, text::trim_end(fields@[i].lm_name@)),
{
    let names = lm_names(fields@);
    let list = text::join(names, ", "@);
    let rows = schema_rows(fields@, fields@.len());
    let front = "SUBMIT("@ + list + ") where:\n"@;
    let all = front + rows;
    let f = fields@[i];
    let p = "  "@ + f.lm_name@ + ": "@ + type_text(f.type_repr@);
    lemma_field_rows(fields@, fields@.len(), i);
    lemma_field_row_holds(f, j);
    text_laws::lemma_ends(front, rows);
    text_laws::lemma_within(all, rows, field_rows(f));
    text_laws::lemma_within(all, field_rows(f), p);
    text_laws::lemma_trim_end_keeps_text(all, p);
    if 0 <= j < f.constraints@.len() {
        text_laws::lemma_within(all, field_rows(f), f.constraints@[j].expression@);
        text_laws::lemma_trim_end_keeps_text(all, f.constraints@[j].expression@);
    }
    text_laws::lemma_join_at(names, ", "@, i);
    assert(text::has_text(list, names[i]));
    text_laws::lemma_inside("SUBMIT("@, list, ") where:\n"@);
    text_laws::lemma_within(front, list, names[i]);
    text_laws::lemma_within(all, front, names[i]);
    text_laws::lemma_trim_end_keeps_text(all, names[i]);
}

proof fn lemma_key_index(kwargs: Seq<(PyObject, PyObject)>, name: Seq<char>, from: int)
    requires
        0 <= from <= kwargs.len(),
    ensures
        py_bridge::key_index(kwargs, name, from) < kwargs.len() <==> exists|k: int|
            from <= k < kwargs.len() && (#[trigger] kwargs[k]).0.text is Ok
                && kwargs[k].0.text->Ok_0@ == name,
    decreases kwargs.len() - from,
{
    if from < kwargs.len() {
        lemma_key_index(kwargs, name, from + 1);
        if kwargs[from].0.text is Ok && kwargs[from].0.text->Ok_0@ == name {
            assert(kwargs[from].0.text is Ok);
        } else if exists|k: int|
            from <= k < kwargs.len() && (#[trigger] kwargs[k]).0.text is Ok
                && kwargs[k].0.text->Ok_0@ == name {
            let k = choose|k: int|
                from <= k < kwargs.len() && (#[trigger] kwargs[k]).0.text is Ok
                    && kwargs[k].0.text->Ok_0@ == name;
            assert(from + 1 <= k);
        }
    }
}

proof fn lemma_missing(names: Seq<Seq<char>>, kwargs: Seq<(PyObject, PyObject)>, n: nat, i: int)
    requires
        n <= names.len(),
    ensures
        0 <= i < n && !(py_bridge::key_index(kwargs, names[i], 0) < kwargs.len()) ==> missing(
            names,
            kwargs,
            n,
        ).contains(names[i]),
        (forall|k: int|
            0 <= k < n ==> py_bridge::key_index(kwargs, #[trigger] names[k], 0) < kwargs.len())
            ==> missing(names, kwargs, n).len() == 0,
    decreases n,
{
    if n > 0 {
        lemma_missing(names, kwargs, (n - 1) as nat, i);
        let before = missing(names, kwargs, (n - 1) as nat);
        let now = missing(names, kwargs, n);
        if 0 <= i < n && !(py_bridge::key_index(kwargs, names[i], 0) < kwargs.len()) {
            if i == n - 1 {
                assert(now[before.len() as int] == names[i]);
            } else {
                let at = before.index_of(names[i]);
                assert(now[at] == names[i]);
            }
        }
    }
}

proof fn lemma_unexpected(
    names: Seq<Seq<char>>,
    kwargs: Seq<(PyObject, PyObject)>,
    n: nat,
    i: int,
)
    requires
        n <= kwargs.len(),
    ensures
        0 <= i < n && kwargs[i].0.text is Ok && !names.contains(kwargs[i].0.text->Ok_0@)
            ==> unexpected(names, kwargs, n).len() > 0,
        (forall|k: int|
            0 <= k < n ==> (#[trigger] kwargs[k]).0.text is Ok && names.contains(
                kwargs[k].0.text->Ok_0@,
            )) ==> unexpected(names, kwargs, n).len() == 0,
    decreases n,
{
    if n > 0 {
        lemma_unexpected(names, kwargs, (n - 1) as nat, i);
        let before = unexpected(names, kwargs, (n - 1) as nat);
        if let Ok(t) = kwargs[n - 1].0.text {
            lemma_insert_text(before, t@);
        }
        assert(kwargs[n - 1] == kwargs[n - 1]);
    }
}

proof fn lemma_insert_text(list: Seq<Seq<char>>, t: Seq<char>)
    ensures
        insert_text(list, t).len() == list.len() + 1,
    decreases list.len(),
{
    if list.len() > 0 && text::lex_less(t, list.last()) {
        lemma_insert_text(list.drop_last(), t);
    }
}

proof fn lemma_keys_are_texts(kwargs: Seq<(PyObject, PyObject)>, i: int)
    requires
        0 <= i,
        forall|k: int| 0 <= k < kwargs.len() ==> (#[trigger] kwargs[k]).0.text is Ok,
    ensures
        bad_key(kwargs, i) is None,
    decreases kwargs.len() - i,
{
    if i < kwargs.len() {
        assert(kwargs[i].0.text is Ok);
        lemma_keys_are_texts(kwargs, i + 1);
    }
}

/// A call that leaves out a field, or names one that there is not, is answered with an error that
/// is kept too; nothing of it becomes an output.
pub proof fn outputs_need_every_field_and_no_other(
    handler: &SubmitHandler,
    kwargs: &Vec<(PyObject, PyObject)>,
    slot: &mut SubmitSlot,
    r: SubmitStep,
    i: int,
    k: int,
)
    requires
        handler.wf(),
        call_ensures(SubmitHandler::call, (handler, Some(kwargs), slot), r),
        forall|k: int| 0 <= k < kwargs@.len() ==> (#[trigger] kwargs@[k]).0.text is Ok,
        (0 <= i < handler.fields@.len() && forall|x: int|
            0 <= x < kwargs@.len() ==> (#[trigger] kwargs@[x]).0.text->Ok_0@
                != handler.fields@[i].lm_name@) || (0 <= k < kwargs@.len() && forall|y: int|
            0 <= y < handler.fields@.len() ==> (#[trigger] handler.fields@[y]).lm_name@
                != kwargs@[k].0.text->Ok_0@),
    ensures
        r is Reply,
        r->Reply_0 is Text,
        final(slot).stored is Some,
        final(slot).stored->0 is Err,
        final(slot).stored->0->Err_0 is ValidationError,
{
    let names = lm_names(handler.fields@);
    lemma_keys_are_texts(kwargs@, 0);
    lemma_missing(names, kwargs@, names.len(), i);
    lemma_unexpected(names, kwargs@, kwargs@.len(), k);
    if 0 <= i < handler.fields@.len() && forall|x: int|
        0 <= x < kwargs@.len() ==> (#[trigger] kwargs@[x]).0.text->Ok_0@
            != handler.fields@[i].lm_name@ {
        lemma_key_index(kwargs@, names[i], 0);
        assert(missing(names, kwargs@, names.len()).contains(names[i]));
        assert(missing(names, kwargs@, names.len()).len() > 0);
    } else {
        if names.contains(kwargs@[k].0.text->Ok_0@) {
            let y = names.index_of(kwargs@[k].0.text->Ok_0@);
            assert(handler.fields@[y].lm_name@ == names[y]);
        }
        assert(kwargs@[k].0.text is Ok);
        assert(unexpected(names, kwargs@, kwargs@.len()).len() > 0);
    }
    assert(final(slot).stored->0->Err_0@ is ValidationError);
    assert(r->Reply_0@ is Text);
}

/// A call with exactly the fields of the output goes on to its values, and nothing is kept yet.
pub proof fn calls_with_all_fields_go_on(
    handler: &SubmitHandler,
    kwargs: &Vec<(PyObject, PyObject)>,
    slot: &mut SubmitSlot,
    r: SubmitStep,
)
    requires
        handler.wf(),
        call_ensures(SubmitHandler::call, (handler, Some(kwargs), slot), r),
        forall|k: int|
            0 <= k < kwargs@.len() ==> (#[trigger] kwargs@[k]).0.text is Ok && lm_names(
                handler.fields@,
            ).contains(kwargs@[k].0.text->Ok_0@),
        forall|i: int|
            0 <= i < handler.fields@.len() ==> exists|k: int|
                0 <= k < kwargs@.len() && (#[trigger] kwargs@[k]).0.text->Ok_0@ == (
                #[trigger] handler.fields@[i]).lm_name@,
    ensures
        !(r is Reply),
        *final(slot) == *old(slot),
{
    let names = lm_names(handler.fields@);
    assert forall|k: int| 0 <= k < kwargs@.len() implies (#[trigger] kwargs@[k]).0.text is Ok by {}
    lemma_keys_are_texts(kwargs@, 0);
    assert forall|i: int| 0 <= i < names.len() implies py_bridge::key_index(
        kwargs@,
        #[trigger] names[i],
        0,
    ) < kwargs@.len() by {
        assert(handler.fields@[i].lm_name@ == names[i]);
        let k = choose|k: int|
            0 <= k < kwargs@.len() && (#[trigger] kwargs@[k]).0.text->Ok_0@
                == handler.fields@[i].lm_name@;
        assert(kwargs@[k].0.text is Ok);
        lemma_key_index(kwargs@, names[i], 0);
    }
    lemma_missing(names, kwargs@, names.len(), 0);
    lemma_unexpected(names, kwargs@, kwargs@.len(), 0);
}

/// An output whose constraints were looked at is accepted: it is what the slot then gives, with
/// how it was written and how each of its checks came out, and the code ends. The slot gives it
/// once.
pub proof fn accepted_outputs_are_handed_out(
    handler: &SubmitHandler,
    kwargs: &Vec<(PyObject, PyObject)>,
    value: BamlValue,
    checks: Vec<ResponseCheck>,
    shown: String,
    slot: &mut SubmitSlot,
    r: SubmitReply,
    then_slot: &mut SubmitSlot,
    taken: Option<SubmitResultDyn>,
    i: int,
)
    requires
        handler.wf(),
        call_ensures(
            SubmitHandler::conclude,
            (
                handler,
                kwargs,
                Ok::<(BamlValue, Vec<ResponseCheck>), BamlParseError>((value, checks)),
                shown,
                slot,
            ),
            r,
        ),
        *old(then_slot) == *final(slot),
        call_ensures(take_submit_result, (then_slot,), taken),
    ensures
        r is Terminated,
        taken is Some,
        taken->0 is Ok,
        taken->0->Ok_0.0 == value,
        final(then_slot).stored is None,
        metadata::field_metas(taken->0->Ok_0.1).len() == 1,
        metadata::field_metas(taken->0->Ok_0.1)[0].1.raw_text == shown@,
        metadata::field_metas(taken->0->Ok_0.1)[0].1.checks.len() == checks@.len(),
        0 <= i < checks@.len() ==> {
            let c = metadata::field_metas(taken->0->Ok_0.1)[0].1.checks[i];
            c.label == checks@[i].name@ && c.expression == checks@[i].expression@ && (c.passed
                <==> checks@[i].status@ == "succeeded"@)
        },
{
    assert(r@ is Terminated);
}

/// An output of which an assertion failed is not accepted: the slot keeps which one, and the
/// reply says so.
pub proof fn failed_assertions_are_said(
    handler: &SubmitHandler,
    kwargs: &Vec<(PyObject, PyObject)>,
    error: BamlParseError,
    shown: String,
    slot: &mut SubmitSlot,
    r: SubmitReply,
)
    requires
        handler.wf(),
        call_ensures(
            SubmitHandler::conclude,
            (
                handler,
                kwargs,
                Err::<(BamlValue, Vec<ResponseCheck>), BamlParseError>(error),
                shown,
                slot,
            ),
            r,
        ),
    ensures
        !(r is Terminated),
        !(final(slot).stored matches Some(Ok(_))) || *final(slot) == *old(slot),
        error@ matches ParseErrorView::AssertsFailed(failed) ==> failed.len() > 0
            ==> (final(slot).stored matches Some(Err(SubmitError::AssertionFailed {
            label,
            expression,
        })) && label@ == failed[0].name@ && expression@ == failed[0].expression@),
        !(error@ is AssertsFailed) ==> (final(slot).stored matches Some(
            Err(SubmitError::ValidationError { message, errors }),
        ) && message@ == shown@ && errors@.len() > 0),
{
    match refusal(handler.fields@, kwargs@, error@, shown@).0 {
        Some(k) => {
            assert(final(slot).stored->0->Err_0@ == k);
            if !(error@ is AssertsFailed) {
                let e = final(slot).stored->0->Err_0;
                assert(text::views(e->errors@).len() == e->errors@.len());
            }
        },
        None => {},
    }
    if r is Terminated {
        assert(r@ is Terminated);
    }
}

proof fn lemma_detail(
    fields: Seq<FieldSchema>,
    kwargs: Seq<(PyObject, PyObject)>,
    path: Seq<Seq<char>>,
    expected: Seq<char>,
    got: Seq<char>,
    message: Seq<char>,
)
    ensures
        text::has_text(
            convert_detail(fields, kwargs, path, expected, got, message),
            text::join(path, "."@),
        ),
        !(expected == "field"@ && got == "missing"@) ==> text::has_text(
            convert_detail(fields, kwargs, path, expected, got, message),
            ", got "@ + got,
        ),
{
    let at = text::join(path, "."@);
    if expected == "field"@ && got == "missing"@ {
        text_laws::lemma_ends("missing required field: "@, at);
    } else {
        let wanted = text::trim(
            if text::has_prefix(message, "expected "@) {
                message.skip("expected "@.len() as int)
            } else {
                expected
            },
        );
        let end = match value_repr(fields, kwargs, path) {
            Some(shown) => " "@ + shown,
            None => Seq::empty(),
        };
        let head = "field '"@ + at;
        let a = "' expected "@;
        let b = ", got "@;
        text_laws::lemma_grouped(head + a + wanted, b, got);
        text_laws::lemma_inside(head + a + wanted, b + got, end);
        text_laws::lemma_grouped(head, a, wanted);
        text_laws::lemma_grouped(head, a + wanted, b);
        text_laws::lemma_grouped(head, a + wanted + b, got);
        text_laws::lemma_grouped(head, a + wanted + b + got, end);
        text_laws::lemma_inside("field '"@, at, a + wanted + b + got + end);
    }
}

/// A value that does not fit its field is refused by name: what is kept says where it stands and
/// what it was instead, and so does the reply.
pub proof fn values_that_do_not_fit_are_named(
    handler: &SubmitHandler,
    kwargs: &Vec<(PyObject, PyObject)>,
    error: BamlParseError,
    shown: String,
    slot: &mut SubmitSlot,
    r: SubmitReply,
)
    requires
        handler.wf(),
        error@ is Convert,
        call_ensures(
            SubmitHandler::conclude,
            (
                handler,
                kwargs,
                Err::<(BamlValue, Vec<ResponseCheck>), BamlParseError>(error),
                shown,
                slot,
            ),
            r,
        ),
    ensures
        final(slot).stored matches Some(Err(SubmitError::ValidationError { errors, .. }))
            && errors@.len() == 1 && text::has_text(
            errors@[0]@,
            text::join(error@->path, "."@),
        ) && (!(error@->expected == "field"@ && error@->got == "missing"@) ==> text::has_text(
            errors@[0]@,
            ", got "@ + error@->got,
        )),
        r@ matches ReplyView::Text(t) && text::has_text(t, text::join(error@->path, "."@)),
{
    let e = final(slot).stored->0->Err_0;
    let all = details(handler.fields@, kwargs@, error@);
    let detail = all[0];
    assert(text::views(e->errors@).len() == e->errors@.len());
    assert(text::views(e->errors@)[0] == e->errors@[0]@);
    lemma_detail(
        handler.fields@,
        kwargs@,
        error@->path,
        error@->expected,
        error@->got,
        error@->message,
    );
    let marked = Seq::new(all.len(), |i: int| "  - "@ + all[i]);
    text_laws::lemma_join_at(marked, "\n"@, 0);
    assert(marked[0] == "  - "@ + detail);
    let listed = text::join(marked, "\n"@);
    text_laws::lemma_ends("  - "@, detail);
    text_laws::lemma_within(listed, marked[0], detail);
    text_laws::lemma_within(listed, detail, text::join(error@->path, "."@));
    let end = if description(handler.fields@).len() == 0 {
        Seq::empty()
    } else {
        "\n\nExpected schema:\n"@ + description(handler.fields@)
    };
    let head = "SubmitError: "@ + "Validation failed"@;
    text_laws::lemma_ends("\n"@, listed);
    text_laws::lemma_inside(head, "\n"@ + listed, end);
    let said = head + ("\n"@ + listed) + end;
    text_laws::lemma_within(said, "\n"@ + listed, listed);
    text_laws::lemma_within(said, listed, text::join(error@->path, "."@));
}

} // verus!
