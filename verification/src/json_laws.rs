//! What holds of JSON values, their texts and their canonical bytes.

use vstd::prelude::*;

use crate::json;
use crate::json::{Json, JsonMap, JsonView};
use crate::text;
use crate::text_laws;

verus! {

proof fn lemma_member_index(members: Seq<(Seq<char>, JsonView)>, name: Seq<char>, from: int)
    requires
        0 <= from <= members.len(),
    ensures
        from <= json::member_index(members, name, from) <= members.len(),
        json::member_index(members, name, from) < members.len() ==> members[json::member_index(
            members,
            name,
            from,
        )].0 == name,
    decreases members.len() - from,
{
    if from < members.len() && members[from].0 != name {
        lemma_member_index(members, name, from + 1);
    }
}

pub proof fn lemma_with_member(
    members: Seq<(Seq<char>, JsonView)>,
    name: Seq<char>,
    value: JsonView,
    m: (Seq<char>, JsonView),
)
    ensures
        json::with_member(members, name, value).contains((name, value)),
        members.contains(m) && m.0 != name ==> json::with_member(members, name, value).contains(m),
        json::with_member(members, name, value).contains(m) ==> m == (name, value)
            || members.contains(m),
{
    lemma_member_index(members, name, 0);
    let at = json::member_index(members, name, 0);
    let all = json::with_member(members, name, value);
    assert(all[at] == (name, value));
    if members.contains(m) && m.0 != name {
        let i = members.index_of(m);
        assert(all[i] == m);
    }
    if all.contains(m) {
        let i = all.index_of(m);
        if i != at {
            assert(members[i] == m);
        }
    }
}

proof fn lemma_extended(
    members: Seq<(Seq<char>, JsonView)>,
    others: Seq<(Seq<char>, JsonView)>,
    n: nat,
    m: (Seq<char>, JsonView),
)
    requires
        n <= others.len(),
        json::distinct_names(others),
    ensures
        forall|k: int|
            0 <= k < n ==> json::extended(members, others, n).contains(#[trigger] others[k]),
        members.contains(m) && (forall|k: int| 0 <= k < n ==> (#[trigger] others[k]).0 != m.0)
            ==> json::extended(members, others, n).contains(m),
        json::extended(members, others, n).contains(m) ==> members.contains(m) || others.contains(
            m,
        ),
    decreases n,
{
    if n > 0 {
        let before = json::extended(members, others, (n - 1) as nat);
        let last = others[n - 1];
        lemma_extended(members, others, (n - 1) as nat, m);
        lemma_with_member(before, last.0, last.1, m);
        assert(last == (last.0, last.1));
        assert(others.contains(last));
        assert forall|k: int| 0 <= k < n implies json::extended(members, others, n).contains(
            #[trigger] others[k],
        ) by {
            lemma_with_member(before, last.0, last.1, others[k]);
        }
    }
}

/// Writing the members of an object over those of another keeps each of them, keeps the members
/// whose names do not occur in it, and brings no others.
pub proof fn written_members_replace_those_of_their_name(
    map: &mut JsonMap,
    others: &JsonMap,
    m: (Seq<char>, JsonView),
)
    requires
        call_ensures(json::extend_map, (map, others), ()),
        json::distinct_names(json::members_view(others@)),
    ensures
        forall|k: int|
            0 <= k < others@.len() ==> json::members_view(final(map)@).contains(
                #[trigger] json::members_view(others@)[k],
            ),
        json::members_view(old(map)@).contains(m) && (forall|k: int|
            0 <= k < others@.len() ==> (#[trigger] others@[k]).0@ != m.0) ==> json::members_view(
            final(map)@,
        ).contains(m),
        json::members_view(final(map)@).contains(m) ==> json::members_view(old(map)@).contains(m)
            || json::members_view(others@).contains(m),
{
    let a = json::members_view(old(map)@);
    let b = json::members_view(others@);
    lemma_extended(a, b, b.len(), m);
    if forall|k: int| 0 <= k < others@.len() ==> (#[trigger] others@[k]).0@ != m.0 {
        assert forall|k: int| 0 <= k < b.len() implies (#[trigger] b[k]).0 != m.0 by {
            assert(others@[k].0@ != m.0);
        }
    }
}

/// The same of a row of an example: input and output in one object.
pub proof fn lemma_members_written_over(
    members: Seq<(Seq<char>, JsonView)>,
    others: Seq<(Seq<char>, JsonView)>,
    m: (Seq<char>, JsonView),
)
    requires
        json::distinct_names(others),
    ensures
        others.contains(m) ==> json::extended(members, others, others.len()).contains(m),
        members.contains(m) && (forall|k: int|
            0 <= k < others.len() ==> (#[trigger] others[k]).0 != m.0) ==> json::extended(
            members,
            others,
            others.len(),
        ).contains(m),
        json::extended(members, others, others.len()).contains(m) ==> members.contains(m)
            || others.contains(m),
{
    lemma_extended(members, others, others.len(), m);
    if others.contains(m) {
        let k = others.index_of(m);
        assert(others[k] == m);
    }
}

proof fn lemma_items_text(items: Seq<JsonView>, n: nat)
    requires
        n <= items.len(),
    ensures
        json::items_text(items, n) == text::join(
            Seq::new(n, |i: int| json::json_text(items[i])),
            ","@,
        ),
    decreases n,
{
    let parts = Seq::new(n, |i: int| json::json_text(items[i]));
    if n > 0 {
        lemma_items_text(items, (n - 1) as nat);
        let before = Seq::new((n - 1) as nat, |i: int| json::json_text(items[i]));
        assert(parts.drop_last() =~= before);
        if n == 1 {
            assert(json::items_text(items, 0) =~= Seq::<char>::empty());
            assert(Seq::<char>::empty() + Seq::<char>::empty() + parts[0] =~= parts[0]);
        }
    }
}

proof fn lemma_members_text(members: Seq<(Seq<char>, JsonView)>, n: nat)
    requires
        n <= members.len(),
    ensures
        json::members_text(members, n) == text::join(
            Seq::new(
                n,
                |i: int| json::json_quote(members[i].0) + ":"@ + json::json_text(members[i].1),
            ),
            ","@,
        ),
    decreases n,
{
    let part = |i: int| json::json_quote(members[i].0) + ":"@ + json::json_text(members[i].1);
    let parts = Seq::new(n, part);
    if n > 0 {
        lemma_members_text(members, (n - 1) as nat);
        assert(parts.drop_last() =~= Seq::new((n - 1) as nat, part));
        let before = json::members_text(members, (n - 1) as nat);
        let q = json::json_quote(members[n - 1].0);
        let t = json::json_text(members[n - 1].1);
        let head = before + (if n == 1 {
            Seq::empty()
        } else {
            ","@
        });
        assert(head + q + ":"@ + t =~= head + (q + ":"@ + t));
        if n == 1 {
            assert(before =~= Seq::<char>::empty());
            assert(head + (q + ":"@ + t) =~= parts[0]);
        }
    }
}

/// The text of an array is the texts of its items between brackets, one comma between two of
/// them, in their order.
pub proof fn texts_of_arrays_hold_their_items(value: &Json, items: Seq<JsonView>, r: String)
    requires
        call_ensures(json::json_string, (value,), r),
        value@ == JsonView::Array(items),
    ensures
        r@ == "["@ + text::join(Seq::new(items.len(), |i: int| json::json_text(items[i])), ","@)
            + "]"@,
{
    lemma_items_text(items, items.len());
}

/// The text of an object is its members between braces, each a quoted name, a colon and the
/// text of the value, one comma between two of them, in their order.
pub proof fn texts_of_objects_hold_their_members(
    value: &Json,
    members: Seq<(Seq<char>, JsonView)>,
    r: String,
)
    requires
        call_ensures(json::json_string, (value,), r),
        value@ == JsonView::Object(members),
    ensures
        r@ == "{"@ + text::join(
            Seq::new(
                members.len(),
                |i: int| json::json_quote(members[i].0) + ":"@ + json::json_text(members[i].1),
            ),
            ","@,
        ) + "}"@,
{
    lemma_members_text(members, members.len());
}

proof fn lemma_plain_escapes(s: Seq<char>, n: nat)
    requires
        n <= s.len(),
        forall|i: int| 0 <= i < s.len() ==> #[trigger] s[i] >= ' ' && s[i] != '"' && s[i] != '\\',
    ensures
        json::json_escapes(s, n) == s.take(n as int),
    decreases n,
{
    if n > 0 {
        lemma_plain_escapes(s, (n - 1) as nat);
        assert(s[n - 1] >= ' ');
        assert(s.take(n - 1) + seq![s[n - 1]] =~= s.take(n as int));
    } else {
        assert(s.take(0) =~= Seq::<char>::empty());
    }
}

/// Numbers are written as they are, and a text without control characters, quotes and
/// backslashes as it is between quotes.
pub proof fn texts_of_plain_values(value: &Json, r: String)
    requires
        call_ensures(json::json_string, (value,), r),
    ensures
        value@ is Null ==> r@ == "null"@,
        value@ == JsonView::Bool(true) ==> r@ == "true"@,
        value@ == JsonView::Bool(false) ==> r@ == "false"@,
        value@ matches JsonView::Number(t) ==> r@ == t,
        value@ matches JsonView::Str(t) ==> (forall|i: int|
            0 <= i < t.len() ==> #[trigger] t[i] >= ' ' && t[i] != '"' && t[i] != '\\') ==> r@
            == seq!['"'] + t + seq!['"'],
{
    if let JsonView::Str(t) = value@ {
        if forall|i: int| 0 <= i < t.len() ==> #[trigger] t[i] >= ' ' && t[i] != '"' && t[i] != '\\' {
            lemma_plain_escapes(t, t.len());
            assert(t.take(t.len() as int) =~= t);
        }
    }
}

proof fn lemma_text_bytes(a: Seq<char>, b: Seq<char>)
    requires
        json::text_bytes(a) == json::text_bytes(b),
    ensures
        a == b,
{
    let x = vstd::utf8::encode_utf8(a);
    let y = vstd::utf8::encode_utf8(b);
    let p = vstd::bytes::spec_u64_to_le_bytes(x.len() as u64);
    let q = vstd::bytes::spec_u64_to_le_bytes(y.len() as u64);
    vstd::bytes::lemma_auto_spec_u64_to_from_le_bytes();
    assert((p + x).skip(8) =~= x);
    assert((q + y).skip(8) =~= y);
    vstd::utf8::encode_utf8_decode_utf8(a);
    vstd::utf8::encode_utf8_decode_utf8(b);
}

/// Values of different kinds, and different values that are no arrays or objects, have different
/// canonical bytes.
pub proof fn canonical_bytes_tell_values_apart(a: JsonView, b: JsonView)
    requires
        json::canonical(a) == json::canonical(b),
    ensures
        a is Null <==> b is Null,
        a is Bool <==> b is Bool,
        a is Number <==> b is Number,
        a is Str <==> b is Str,
        a is Array <==> b is Array,
        a is Object <==> b is Object,
        !(a is Array || a is Object) ==> a == b,
{
    let x = json::canonical(a);
    let y = json::canonical(b);
    assert(x[0] == y[0]);
    if a is Bool && b is Bool {
        assert(x[1] == y[1]);
    } else if a is Number && b is Number {
        assert(x.skip(1) =~= json::text_bytes(a->Number_0));
        assert(y.skip(1) =~= json::text_bytes(b->Number_0));
        lemma_text_bytes(a->Number_0, b->Number_0);
    } else if a is Str && b is Str {
        assert(x.skip(1) =~= json::text_bytes(a->Str_0));
        assert(y.skip(1) =~= json::text_bytes(b->Str_0));
        lemma_text_bytes(a->Str_0, b->Str_0);
    }
}

/// A member whose name is written over does not stay, where names occur once.
pub proof fn lemma_name_written_over(
    members: Seq<(Seq<char>, JsonView)>,
    others: Seq<(Seq<char>, JsonView)>,
    k: int,
    m: (Seq<char>, JsonView),
)
    requires
        json::distinct_names(members),
        json::distinct_names(others),
        0 <= k < others.len(),
        others[k].0 == m.0,
        !others.contains(m),
    ensures
        !json::extended(members, others, others.len()).contains(m),
{
    lemma_extended_distinct(members, others, others.len());
    lemma_extended(members, others, others.len(), m);
    let all = json::extended(members, others, others.len());
    assert(all.contains(others[k]));
    if all.contains(m) {
        let i = all.index_of(m);
        let j = all.index_of(others[k]);
        assert(all[i].0 == all[j].0);
        assert(others.contains(others[k]));
    }
}

proof fn lemma_extended_distinct(
    members: Seq<(Seq<char>, JsonView)>,
    others: Seq<(Seq<char>, JsonView)>,
    n: nat,
)
    requires
        n <= others.len(),
        json::distinct_names(members),
    ensures
        json::distinct_names(json::extended(members, others, n)),
    decreases n,
{
    if n > 0 {
        lemma_extended_distinct(members, others, (n - 1) as nat);
        let before = json::extended(members, others, (n - 1) as nat);
        lemma_absent(before, others[n - 1].0, 0);
        lemma_member_index(before, others[n - 1].0, 0);
    }
}

proof fn lemma_absent(members: Seq<(Seq<char>, JsonView)>, name: Seq<char>, from: int)
    requires
        0 <= from <= members.len(),
    ensures
        json::member_index(members, name, from) >= members.len() ==> forall|i: int|
            from <= i < members.len() ==> (#[trigger] members[i]).0 != name,
    decreases members.len() - from,
{
    if from < members.len() && members[from].0 != name {
        lemma_absent(members, name, from + 1);
    }
}

/// A member of an object stands in its text.
pub proof fn lemma_member_is_written(members: Seq<(Seq<char>, JsonView)>, i: int)
    requires
        0 <= i < members.len(),
    ensures
        text::has_text(
            json::json_text(JsonView::Object(members)),
            json::json_quote(members[i].0) + ":"@ + json::json_text(members[i].1),
        ),
{
    let parts = Seq::new(
        members.len(),
        |i: int| json::json_quote(members[i].0) + ":"@ + json::json_text(members[i].1),
    );
    lemma_members_text(members, members.len());
    text_laws::lemma_join_at(parts, ","@, i);
    let inner = text::join(parts, ","@);
    assert(text::has_text(inner, parts[i]));
    text_laws::lemma_inside("{"@, inner, "}"@);
    text_laws::lemma_within("{"@ + inner + "}"@, inner, parts[i]);
}

/// An item of an array stands in its text.
pub proof fn lemma_item_is_written(items: Seq<JsonView>, i: int)
    requires
        0 <= i < items.len(),
    ensures
        text::has_text(json::json_text(JsonView::Array(items)), json::json_text(items[i])),
{
    let parts = Seq::new(items.len(), |i: int| json::json_text(items[i]));
    lemma_items_text(items, items.len());
    text_laws::lemma_join_at(parts, ","@, i);
    let inner = text::join(parts, ","@);
    assert(text::has_text(inner, parts[i]));
    text_laws::lemma_inside("["@, inner, "]"@);
    text_laws::lemma_within("["@ + inner + "]"@, inner, parts[i]);
}

} // verus!
