//! Values as the interpreter takes them.

use vstd::prelude::*;

use crate::modules::rlm::json_data;
use crate::modules::rlm::json_data::{DataView, JsonData};
use crate::modules::rlm::values::BamlValue;

verus! {

/// An object of a basic type. A number with a fraction is held by its bit pattern.
#[derive(Debug)]
pub enum PyPlain {
    Null,
    Bool(bool),
    Int(i64),
    Float(u64),
    Text(String),
    List(Vec<PyPlain>),
    Dict(Vec<(String, PyPlain)>),
}

/// What is said of a value that no object stands for.
pub open spec fn media_text() -> Seq<char> {
    "Media values are not supported in RLM V1"@
}

/// Media occurs in the value.
pub open spec fn has_media(v: BamlValue) -> bool
    decreases v,
{
    match v {
        BamlValue::Media => true,
        BamlValue::List(items) => exists|i: int|
            0 <= i < items@.len() && has_media(#[trigger] items@[i]),
        BamlValue::Dict(entries) => exists|i: int|
            0 <= i < entries@.len() && has_media((#[trigger] entries@[i]).1),
        BamlValue::Class(_, fields) => exists|i: int|
            0 <= i < fields@.len() && has_media((#[trigger] fields@[i]).1),
        _ => false,
    }
}

/// The object stands for the value: a class and a map are dictionaries, and a variant of an enum
/// is its name.
pub open spec fn stands_for(p: PyPlain, v: BamlValue) -> bool
    decreases v,
{
    match v {
        BamlValue::Text(t) => p matches PyPlain::Text(s) && s@ == t@,
        BamlValue::Int(n) => p == PyPlain::Int(n),
        BamlValue::Float(n) => p == PyPlain::Float(n),
        BamlValue::Bool(b) => p == PyPlain::Bool(b),
        BamlValue::Null => p is Null,
        BamlValue::List(items) => p matches PyPlain::List(list) && list@.len() == items@.len()
            && forall|i: int| 0 <= i < items@.len() ==> stands_for(list@[i], #[trigger] items@[i]),
        BamlValue::Dict(entries) => p matches PyPlain::Dict(list) && list@.len()
            == entries@.len() && forall|i: int|
            0 <= i < entries@.len() ==> list@[i].0@ == (#[trigger] entries@[i]).0@ && stands_for(
                list@[i].1,
                entries@[i].1,
            ),
        BamlValue::Enum(_, variant) => p matches PyPlain::Text(s) && s@ == variant@,
        BamlValue::Class(_, fields) => p matches PyPlain::Dict(list) && list@.len()
            == fields@.len() && forall|i: int|
            0 <= i < fields@.len() ==> list@[i].0@ == (#[trigger] fields@[i]).0@ && stands_for(
                list@[i].1,
                fields@[i].1,
            ),
        BamlValue::Media => false,
    }
}

#[verifier::loop_isolation(false)]
fn entries_to_py(entries: &Vec<(String, BamlValue)>) -> (r: Result<Vec<(String, PyPlain)>, String>)
    ensures
        match r {
            Ok(list) => list@.len() == entries@.len() && forall|i: int|
                0 <= i < entries@.len() ==> list@[i].0@ == (#[trigger] entries@[i]).0@
                    && stands_for(list@[i].1, entries@[i].1) && !has_media(entries@[i].1),
            Err(e) => e@ == media_text() && exists|i: int|
                0 <= i < entries@.len() && has_media((#[trigger] entries@[i]).1),
        },
    decreases entries, 0nat,
{
    let mut out: Vec<(String, PyPlain)> = Vec::new();
    let mut i: usize = 0;
    while i < entries.len()
        invariant
            i <= entries@.len(),
            out@.len() == i,
            forall|k: int|
                0 <= k < i ==> out@[k].0@ == (#[trigger] entries@[k]).0@ && stands_for(
                    out@[k].1,
                    entries@[k].1,
                ) && !has_media(entries@[k].1),
        decreases entries@.len() - i,
    {
        match baml_value_to_py(&entries[i].1) {
            Ok(p) => out.push((entries[i].0.clone(), p)),
            Err(e) => {
                return Err(e);
            },
        }
        i += 1;
    }
    Ok(out)
}

/// The object that stands for a value. There is none where media occurs.
#[verifier::loop_isolation(false)]
pub fn baml_value_to_py(value: &BamlValue) -> (r: Result<PyPlain, String>)
    ensures
        match r {
            Ok(p) => !has_media(*value) && stands_for(p, *value),
            Err(e) => has_media(*value) && e@ == media_text(),
        },
    decreases value, 1nat,
{
    match value {
        BamlValue::Text(t) => Ok(PyPlain::Text(t.clone())),
        BamlValue::Int(n) => Ok(PyPlain::Int(*n)),
        BamlValue::Float(n) => Ok(PyPlain::Float(*n)),
        BamlValue::Bool(b) => Ok(PyPlain::Bool(*b)),
        BamlValue::Null => Ok(PyPlain::Null),
        BamlValue::List(items) => {
            let mut out: Vec<PyPlain> = Vec::new();
            let mut i: usize = 0;
            while i < items.len()
                invariant
                    i <= items@.len(),
                    out@.len() == i,
                    forall|k: int|
                        0 <= k < i ==> stands_for(out@[k], #[trigger] items@[k]) && !has_media(
                            items@[k],
                        ),
                decreases items@.len() - i,
            {
                match baml_value_to_py(&items[i]) {
                    Ok(p) => out.push(p),
                    Err(e) => {
                        return Err(e);
                    },
                }
                i += 1;
            }
            Ok(PyPlain::List(out))
        },
        BamlValue::Dict(entries) => match entries_to_py(entries) {
            Ok(list) => Ok(PyPlain::Dict(list)),
            Err(e) => Err(e),
        },
        BamlValue::Enum(_, variant) => Ok(PyPlain::Text(variant.clone())),
        BamlValue::Class(_, fields) => match entries_to_py(fields) {
            Ok(list) => Ok(PyPlain::Dict(list)),
            Err(e) => Err(e),
        },
        BamlValue::Media => Err("Media values are not supported in RLM V1".to_owned()),
    }
}

/// The object stands for what was read as JSON.
pub open spec fn stands_for_json(p: PyPlain, d: DataView) -> bool
    decreases d,
{
    match d {
        DataView::Null => p is Null,
        DataView::Bool(b) => p == PyPlain::Bool(b),
        DataView::Number { integer, fraction } => match integer {
            Some(n) => p == PyPlain::Int(n),
            None => match fraction {
                Some(n) => p == PyPlain::Float(n),
                None => p is Null,
            },
        },
        DataView::Text(t) => p matches PyPlain::Text(s) && s@ == t,
        DataView::Array(items) => p matches PyPlain::List(list) && list@.len() == items.len()
            && forall|i: int|
            0 <= i < items.len() ==> stands_for_json(list@[i], #[trigger] items[i]),
        DataView::Object(members) => p matches PyPlain::Dict(list) && list@.len()
            == members.len() && forall|i: int|
            0 <= i < members.len() ==> list@[i].0@ == (#[trigger] members[i]).0
                && stands_for_json(list@[i].1, members[i].1),
    }
}

/// The object that stands for what was read as JSON.
#[verifier::loop_isolation(false)]
pub fn json_value_to_py(d: &JsonData) -> (r: PyPlain)
    ensures
        stands_for_json(r, d@),
    decreases d,
{
    match d {
        JsonData::Null => PyPlain::Null,
        JsonData::Bool(b) => PyPlain::Bool(*b),
        JsonData::Number { integer, fraction } => match integer {
            Some(n) => PyPlain::Int(*n),
            None => match fraction {
                Some(n) => PyPlain::Float(*n),
                None => PyPlain::Null,
            },
        },
        JsonData::Text(t) => PyPlain::Text(t.clone()),
        JsonData::Array(items) => {
            let mut out: Vec<PyPlain> = Vec::new();
            let mut i: usize = 0;
            while i < items.len()
                invariant
                    i <= items@.len(),
                    out@.len() == i,
                    forall|k: int| 0 <= k < i ==> stands_for_json(out@[k], (#[trigger] items@[k])@),
                decreases items@.len() - i,
            {
                out.push(json_value_to_py(&items[i]));
                i += 1;
            }
            proof {
                json_data::lemma_array_view(*items);
                let held = json_data::items_view(items@);
                assert forall|k: int| 0 <= k < held.len() implies stands_for_json(
                    out@[k],
                    #[trigger] held[k],
                ) by {
                    assert(held[k] == items@[k]@);
                }
            }
            PyPlain::List(out)
        },
        JsonData::Object(members) => {
            let mut out: Vec<(String, PyPlain)> = Vec::new();
            let mut i: usize = 0;
            while i < members.len()
                invariant
                    i <= members@.len(),
                    out@.len() == i,
                    forall|k: int|
                        0 <= k < i ==> out@[k].0@ == (#[trigger] members@[k]).0@
                            && stands_for_json(out@[k].1, members@[k].1@),
                decreases members@.len() - i,
            {
                out.push((members[i].0.clone(), json_value_to_py(&members[i].1)));
                i += 1;
            }
            proof {
                json_data::lemma_object_view(*members);
                let held = json_data::members_view(members@);
                assert forall|k: int| 0 <= k < held.len() implies out@[k].0@ == (
                #[trigger] held[k]).0 && stands_for_json(out@[k].1, held[k].1) by {
                    assert(held[k] == (members@[k].0@, members@[k].1@));
                }
            }
            PyPlain::Dict(out)
        },
    }
}

/// The object that a text holds as JSON. A text that is no JSON holds none.
pub fn text_to_py(raw: &str) -> (r: Option<PyPlain>)
    ensures
        match json_data::json_reading(raw@) {
            Ok(d) => r matches Some(p) && stands_for_json(p, d),
            Err(_) => r is None,
        },
{
    match json_data::read_json(raw) {
        Ok(d) => Some(json_value_to_py(&d)),
        Err(_) => None,
    }
}

} // verus!
