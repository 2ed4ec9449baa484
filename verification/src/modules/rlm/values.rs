//! The values that code hands back, and the kinds of objects that it works with.

use vstd::prelude::*;

verus! {

/// What an object is an instance of.
#[derive(Clone, Copy, Debug, PartialEq, Eq, Structural)]
pub enum PyKind {
    Null,
    Bool,
    Int,
    Float,
    Text,
    List,
    Tuple,
    SetOf,
    Dict,
    Module,
    Other,
}

/// A value of an output. A number with a fraction is held by its bit pattern.
#[derive(Debug)]
pub enum BamlValue {
    Text(String),
    Int(i64),
    Float(u64),
    Bool(bool),
    Null,
    List(Vec<BamlValue>),
    Dict(Vec<(String, BamlValue)>),
    Enum(String, String),
    Class(String, Vec<(String, BamlValue)>),
    Media,
}

pub enum BamlView {
    Text(Seq<char>),
    Int(i64),
    Float(u64),
    Bool(bool),
    Null,
    List(Seq<BamlView>),
    Dict(Seq<(Seq<char>, BamlView)>),
    Enum(Seq<char>, Seq<char>),
    Class(Seq<char>, Seq<(Seq<char>, BamlView)>),
    Media,
}

impl BamlValue {
    pub open spec fn value(&self) -> BamlView
        decreases self,
    {
        match self {
            BamlValue::Text(t) => BamlView::Text(t@),
            BamlValue::Int(n) => BamlView::Int(*n),
            BamlValue::Float(n) => BamlView::Float(*n),
            BamlValue::Bool(b) => BamlView::Bool(*b),
            BamlValue::Null => BamlView::Null,
            BamlValue::List(items) => BamlView::List(
                Seq::new(
                    items@.len(),
                    |i: int|
                        if 0 <= i < items@.len() {
                            items@[i].value()
                        } else {
                            BamlView::Null
                        },
                ),
            ),
            BamlValue::Dict(entries) => BamlView::Dict(
                Seq::new(
                    entries@.len(),
                    |i: int|
                        if 0 <= i < entries@.len() {
                            (entries@[i].0@, entries@[i].1.value())
                        } else {
                            (Seq::empty(), BamlView::Null)
                        },
                ),
            ),
            BamlValue::Enum(name, variant) => BamlView::Enum(name@, variant@),
            BamlValue::Class(name, fields) => BamlView::Class(
                name@,
                Seq::new(
                    fields@.len(),
                    |i: int|
                        if 0 <= i < fields@.len() {
                            (fields@[i].0@, fields@[i].1.value())
                        } else {
                            (Seq::empty(), BamlView::Null)
                        },
                ),
            ),
            BamlValue::Media => BamlView::Media,
        }
    }
}

impl View for BamlValue {
    type V = BamlView;

    open spec fn view(&self) -> BamlView {
        self.value()
    }
}

/// The views of values.
pub open spec fn list_view(items: Seq<BamlValue>) -> Seq<BamlView> {
    Seq::new(items.len(), |i: int| items[i]@)
}

/// The views of named values.
pub open spec fn fields_view(fields: Seq<(String, BamlValue)>) -> Seq<(Seq<char>, BamlView)> {
    Seq::new(fields.len(), |i: int| (fields[i].0@, fields[i].1@))
}

pub proof fn lemma_list(items: Vec<BamlValue>)
    ensures
        BamlValue::List(items)@ == BamlView::List(list_view(items@)),
{
    match BamlValue::List(items)@ {
        BamlView::List(v) => {
            assert forall|i: int| 0 <= i < items@.len() implies #[trigger] v[i] == list_view(
                items@,
            )[i] by {
                assert(v[i] == items@[i]@);
            }
            assert(v =~= list_view(items@));
        },
        _ => {},
    }
}

pub proof fn lemma_dict(entries: Vec<(String, BamlValue)>)
    ensures
        BamlValue::Dict(entries)@ == BamlView::Dict(fields_view(entries@)),
{
    match BamlValue::Dict(entries)@ {
        BamlView::Dict(v) => {
            assert forall|i: int| 0 <= i < entries@.len() implies #[trigger] v[i] == fields_view(
                entries@,
            )[i] by {
                assert(v[i].0 == entries@[i].0@);
                assert(v[i].1 == entries@[i].1@);
            }
            assert(v =~= fields_view(entries@));
        },
        _ => {},
    }
}

pub proof fn lemma_class(name: String, fields: Vec<(String, BamlValue)>)
    ensures
        BamlValue::Class(name, fields)@ == BamlView::Class(name@, fields_view(fields@)),
{
    match BamlValue::Class(name, fields)@ {
        BamlView::Class(n, v) => {
            assert forall|i: int| 0 <= i < fields@.len() implies #[trigger] v[i] == fields_view(
                fields@,
            )[i] by {
                assert(v[i].0 == fields@[i].0@);
                assert(v[i].1 == fields@[i].1@);
            }
            assert(v =~= fields_view(fields@));
        },
        _ => {},
    }
}

/// The first field from `from` on with the name, or the number of fields.
pub open spec fn field_index(
    fields: Seq<(Seq<char>, BamlView)>,
    name: Seq<char>,
    from: int,
) -> int
    decreases fields.len() - from,
{
    if from >= fields.len() {
        fields.len() as int
    } else if fields[from].0 == name {
        from
    } else {
        field_index(fields, name, from + 1)
    }
}

/// A field set: one of the name keeps its place, a new one comes last.
pub open spec fn with_field(
    fields: Seq<(Seq<char>, BamlView)>,
    name: Seq<char>,
    value: BamlView,
) -> Seq<(Seq<char>, BamlView)> {
    let i = field_index(fields, name, 0);
    if 0 <= i < fields.len() {
        fields.update(i, (name, value))
    } else {
        fields.push((name, value))
    }
}

/// Where a field is, or the number of fields.
pub fn find_field(fields: &Vec<(String, BamlValue)>, name: &str) -> (r: usize)
    ensures
        r == field_index(fields_view(fields@), name@, 0),
        r <= fields@.len(),
{
    let ghost view = fields_view(fields@);
    let mut i: usize = 0;
    while i < fields.len()
        invariant
            i <= fields@.len(),
            view == fields_view(fields@),
            field_index(view, name@, 0) == field_index(view, name@, i as int),
        decreases fields@.len() - i,
    {
        if crate::text::text_eq(fields[i].0.as_str(), name) {
            return i;
        }
        i += 1;
    }
    i
}

/// Sets a field.
pub fn put_field(fields: &mut Vec<(String, BamlValue)>, name: String, value: BamlValue)
    ensures
        fields_view(final(fields)@) == with_field(fields_view(old(fields)@), name@, value@),
{
    let ghost before = fields@;
    let i = find_field(fields, name.as_str());
    if i < fields.len() {
        fields.set(i, (name, value));
        proof {
            assert(fields_view(fields@) =~= fields_view(before).update(
                i as int,
                (name@, value@),
            ));
        }
    } else {
        fields.push((name, value));
        proof {
            assert(fields_view(fields@) =~= fields_view(before).push((name@, value@)));
        }
    }
}

impl Clone for BamlValue {
    fn clone(&self) -> (r: Self)
        ensures
            r@ == self@,
        decreases self,
    {
        match self {
            BamlValue::Text(t) => BamlValue::Text(t.clone()),
            BamlValue::Int(n) => BamlValue::Int(*n),
            BamlValue::Float(n) => BamlValue::Float(*n),
            BamlValue::Bool(b) => BamlValue::Bool(*b),
            BamlValue::Null => BamlValue::Null,
            BamlValue::List(items) => {
                let mut out: Vec<BamlValue> = Vec::new();
                let mut i: usize = 0;
                #[verifier::loop_isolation(false)]
                while i < items.len()
                    invariant
                        i <= items@.len(),
                        out@.len() == i,
                        forall|k: int| 0 <= k < i ==> (#[trigger] out@[k])@ == items@[k]@,
                    decreases items@.len() - i,
                {
                    out.push(items[i].clone());
                    i += 1;
                }
                proof {
                    lemma_list(out);
                    lemma_list(*items);
                    assert(list_view(out@) =~= list_view(items@));
                }
                BamlValue::List(out)
            },
            BamlValue::Dict(entries) => {
                let mut out: Vec<(String, BamlValue)> = Vec::new();
                let mut i: usize = 0;
                #[verifier::loop_isolation(false)]
                while i < entries.len()
                    invariant
                        i <= entries@.len(),
                        out@.len() == i,
                        forall|k: int|
                            0 <= k < i ==> (#[trigger] out@[k]).0@ == entries@[k].0@ && out@[k].1@
                                == entries@[k].1@,
                    decreases entries@.len() - i,
                {
                    out.push((entries[i].0.clone(), entries[i].1.clone()));
                    i += 1;
                }
                proof {
                    lemma_dict(out);
                    lemma_dict(*entries);
                    assert(fields_view(out@) =~= fields_view(entries@));
                }
                BamlValue::Dict(out)
            },
            BamlValue::Enum(name, variant) => BamlValue::Enum(name.clone(), variant.clone()),
            BamlValue::Class(name, fields) => {
                let mut out: Vec<(String, BamlValue)> = Vec::new();
                let mut i: usize = 0;
                #[verifier::loop_isolation(false)]
                while i < fields.len()
                    invariant
                        i <= fields@.len(),
                        out@.len() == i,
                        forall|k: int|
                            0 <= k < i ==> (#[trigger] out@[k]).0@ == fields@[k].0@ && out@[k].1@
                                == fields@[k].1@,
                    decreases fields@.len() - i,
                {
                    out.push((fields[i].0.clone(), fields[i].1.clone()));
                    i += 1;
                }
                let copy = name.clone();
                proof {
                    lemma_class(copy, out);
                    lemma_class(*name, *fields);
                    assert(fields_view(out@) =~= fields_view(fields@));
                }
                BamlValue::Class(copy, out)
            },
            BamlValue::Media => BamlValue::Media,
        }
    }
}

} // verus!
