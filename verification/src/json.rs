//! JSON values, their canonical byte form and their stable hash.

use vstd::prelude::*;

use crate::names;
use crate::text;

verus! {

/// A JSON value. A number is held by its decimal text, and the members of an object in the
/// order in which they were written.
#[derive(Debug)]
pub enum Json {
    Null,
    Bool(bool),
    Number(String),
    Str(String),
    Array(Vec<Json>),
    Object(Vec<(String, Json)>),
}

/// The members of a JSON object.
pub type JsonMap = Vec<(String, Json)>;

/// What a JSON value is.
pub enum JsonView {
    Null,
    Bool(bool),
    Number(Seq<char>),
    Str(Seq<char>),
    Array(Seq<JsonView>),
    Object(Seq<(Seq<char>, JsonView)>),
}

impl View for Json {
    type V = JsonView;

    open spec fn view(&self) -> JsonView {
        self.value()
    }
}

impl Json {
    pub open spec fn value(&self) -> JsonView
        decreases self,
    {
        match self {
            Json::Null => JsonView::Null,
            Json::Bool(b) => JsonView::Bool(*b),
            Json::Number(t) => JsonView::Number(t@),
            Json::Str(t) => JsonView::Str(t@),
            Json::Array(items) => JsonView::Array(
                Seq::new(
                    items@.len(),
                    |i: int|
                        if 0 <= i < items@.len() {
                            items@[i].value()
                        } else {
                            JsonView::Null
                        },
                ),
            ),
            Json::Object(members) => JsonView::Object(
                Seq::new(
                    members@.len(),
                    |i: int|
                        if 0 <= i < members@.len() {
                            (members@[i].0@, members@[i].1.value())
                        } else {
                            (Seq::empty(), JsonView::Null)
                        },
                ),
            ),
        }
    }
}

/// The view of a list of values.
pub open spec fn items_view(items: Seq<Json>) -> Seq<JsonView> {
    Seq::new(items.len(), |i: int| items[i]@)
}

/// The view of the members of an object.
pub open spec fn members_view(members: Seq<(String, Json)>) -> Seq<(Seq<char>, JsonView)> {
    Seq::new(members.len(), |i: int| (members[i].0@, members[i].1@))
}

pub proof fn lemma_array_view(items: Vec<Json>)
    ensures
        Json::Array(items)@ == JsonView::Array(items_view(items@)),
{
    assert(Json::Array(items)@->Array_0 =~= items_view(items@));
}

pub proof fn lemma_object_view(members: Vec<(String, Json)>)
    ensures
        Json::Object(members)@ == JsonView::Object(members_view(members@)),
{
    match Json::Object(members)@ {
        JsonView::Object(v) => {
            assert forall|i: int| 0 <= i < members@.len() implies #[trigger] v[i] == members_view(
                members@,
            )[i] by {
                assert(v[i].0 == members@[i].0@);
                assert(v[i].1 == members@[i].1@);
            }
            assert(v =~= members_view(members@));
        },
        _ => {},
    }
}

impl Clone for Json {
    fn clone(&self) -> (r: Self)
        ensures
            r@ == self@,
        decreases self,
    {
        match self {
            Json::Null => Json::Null,
            Json::Bool(b) => Json::Bool(*b),
            Json::Number(t) => Json::Number(t.clone()),
            Json::Str(t) => Json::Str(t.clone()),
            Json::Array(items) => {
                let mut out: Vec<Json> = Vec::new();
                let mut i: usize = 0;
                #[verifier::loop_isolation(false)]
            while i < items.len()
                    invariant
                        i <= items@.len(),
                        out@.len() == i,
                        forall|j: int| 0 <= j < i ==> out@[j]@ == items@[j]@,
                        *self == Json::Array(*items),
                    decreases items@.len() - i,
                {
                    let item = items[i].clone();
                    out.push(item);
                    i += 1;
                }
                proof {
                    lemma_array_view(out);
                    lemma_array_view(*items);
                    assert(items_view(out@) =~= items_view(items@));
                }
                Json::Array(out)
            },
            Json::Object(members) => {
                let mut out: Vec<(String, Json)> = Vec::new();
                let mut i: usize = 0;
                #[verifier::loop_isolation(false)]
            while i < members.len()
                    invariant
                        i <= members@.len(),
                        out@.len() == i,
                        forall|j: int|
                            0 <= j < i ==> (#[trigger] out@[j]).0@ == members@[j].0@
                                && out@[j].1@ == members@[j].1@,
                        *self == Json::Object(*members),
                    decreases members@.len() - i,
                {
                    let value = members[i].1.clone();
                    out.push((members[i].0.clone(), value));
                    i += 1;
                }
                proof {
                    lemma_object_view(out);
                    lemma_object_view(*members);
                    assert(members_view(out@) =~= members_view(members@));
                }
                Json::Object(out)
            },
        }
    }
}


/// The rows of a list of objects.
pub open spec fn rows_view(rows: Seq<JsonMap>) -> Seq<Seq<(Seq<char>, JsonView)>> {
    Seq::new(rows.len(), |i: int| members_view(rows[i]@))
}

/// A copy of the members of an object.
pub fn clone_map(map: &JsonMap) -> (r: JsonMap)
    ensures
        members_view(r@) == members_view(map@),
{
    let mut out: Vec<(String, Json)> = Vec::new();
    let mut i: usize = 0;
    while i < map.len()
        invariant
            i <= map@.len(),
            out@.len() == i,
            forall|j: int|
                0 <= j < i ==> (#[trigger] out@[j]).0@ == map@[j].0@ && out@[j].1@ == map@[j].1@,
        decreases map@.len() - i,
    {
        out.push((map[i].0.clone(), map[i].1.clone()));
        i += 1;
    }
    proof {
        assert(members_view(out@) =~= members_view(map@));
    }
    out
}

/// A copy of a list of objects.
pub fn clone_rows(rows: &Vec<JsonMap>) -> (r: Vec<JsonMap>)
    ensures
        rows_view(r@) == rows_view(rows@),
{
    let mut out: Vec<JsonMap> = Vec::new();
    let mut i: usize = 0;
    while i < rows.len()
        invariant
            i <= rows@.len(),
            out@.len() == i,
            forall|j: int| 0 <= j < i ==> members_view((#[trigger] out@[j])@) == members_view(rows@[j]@),
        decreases rows@.len() - i,
    {
        out.push(clone_map(&rows[i]));
        i += 1;
    }
    proof {
        assert(rows_view(out@) =~= rows_view(rows@));
    }
    out
}

pub const HASH_OFFSET: u64 = 0xcbf29ce484222325;

pub const HASH_PRIME: u64 = 0x100000001b3;

/// The 64-bit FNV-1a hash of a sequence of bytes.
pub open spec fn hash_of(bytes: Seq<u8>) -> u64
    decreases bytes.len(),
{
    if bytes.len() == 0 {
        HASH_OFFSET
    } else {
        (hash_of(bytes.drop_last()) ^ (bytes.last() as u64)).wrapping_mul(HASH_PRIME)
    }
}

/// A hasher whose result depends on the written bytes alone, in every process.
pub struct StableHasher {
    state: u64,
    written: Ghost<Seq<u8>>,
}

impl StableHasher {
    /// The bytes written so far.
    pub closed spec fn view(&self) -> Seq<u8> {
        self.written@
    }

    pub closed spec fn wf(&self) -> bool {
        self.state == hash_of(self.written@)
    }

    pub fn new() -> (r: Self)
        ensures
            r.wf(),
            r@ == Seq::<u8>::empty(),
    {
        StableHasher { state: HASH_OFFSET, written: Ghost(Seq::empty()) }
    }

    fn write_byte(&mut self, byte: u8)
        requires
            old(self).wf(),
        ensures
            final(self).wf(),
            final(self)@ == old(self)@.push(byte),
    {
        let ghost before = self.written@;
        self.state = (self.state ^ (byte as u64)).wrapping_mul(HASH_PRIME);
        self.written = Ghost(before.push(byte));
        proof {
            assert(before.push(byte).drop_last() =~= before);
        }
    }

    pub fn write(&mut self, bytes: &[u8])
        requires
            old(self).wf(),
        ensures
            final(self).wf(),
            final(self)@ == old(self)@ + bytes@,
    {
        let mut i: usize = 0;
        proof {
            assert(self@ =~= old(self)@ + bytes@.take(0));
        }
        while i < bytes.len()
            invariant
                i <= bytes@.len(),
                self.wf(),
                self@ == old(self)@ + bytes@.take(i as int),
            decreases bytes@.len() - i,
        {
            self.write_byte(bytes[i]);
            i += 1;
            proof {
                assert(self@ =~= old(self)@ + bytes@.take(i as int));
            }
        }
        proof {
            assert(bytes@.take(i as int) =~= bytes@);
        }
    }

    fn write_str(&mut self, s: &str)
        requires
            old(self).wf(),
        ensures
            final(self).wf(),
            final(self)@ == old(self)@ + text_bytes(s@),
    {
        let bytes = s.as_bytes();
        let n = bytes.len();
        let length = vstd::bytes::u64_to_le_bytes(n as u64);
        self.write(&length);
        self.write(bytes);
        proof {
            assert(self@ =~= old(self)@ + text_bytes(s@));
        }
    }

    pub fn finish(&self) -> (r: u64)
        requires
            self.wf(),
        ensures
            r == hash_of(self@),
    {
        self.state
    }
}

/// A text with its length before it, so that no text is the beginning of another.
pub open spec fn text_bytes(t: Seq<char>) -> Seq<u8> {
    vstd::bytes::spec_u64_to_le_bytes(vstd::utf8::encode_utf8(t).len() as u64)
        + vstd::utf8::encode_utf8(t)
}

/// The names of the members of an object.
pub open spec fn keys_of(members: Seq<(Seq<char>, JsonView)>) -> Seq<Seq<char>> {
    Seq::new(members.len(), |i: int| members[i].0)
}

/// The canonical bytes of a value: each kind has its own mark, texts carry their length,
/// and the members of an object come in the order of their names.
pub open spec fn canonical(v: JsonView) -> Seq<u8>
    decreases v, 0nat,
{
    match v {
        JsonView::Null => seq![110u8],
        JsonView::Bool(b) => seq![
            98u8,
            if b {
                1u8
            } else {
                0u8
            },
        ],
        JsonView::Number(t) => seq![35u8] + text_bytes(t),
        JsonView::Str(t) => seq![115u8] + text_bytes(t),
        JsonView::Array(items) => seq![91u8] + canonical_items(items, items.len()) + seq![93u8],
        JsonView::Object(members) => seq![123u8] + canonical_members(
            members,
            names::key_order(keys_of(members), members.len()),
        ) + seq![125u8],
    }
}

pub open spec fn canonical_items(items: Seq<JsonView>, n: nat) -> Seq<u8>
    decreases items, n,
{
    if n == 0 || n > items.len() {
        Seq::empty()
    } else {
        canonical_items(items, (n - 1) as nat) + canonical(items[n - 1])
    }
}

pub open spec fn canonical_members(
    members: Seq<(Seq<char>, JsonView)>,
    order: Seq<int>,
) -> Seq<u8>
    decreases members, order.len(),
{
    if order.len() == 0 {
        Seq::empty()
    } else {
        let k = order.last();
        let before = canonical_members(members, order.drop_last());
        if 0 <= k < members.len() {
            before + seq![107u8] + text_bytes(members[k].0) + canonical(members[k].1)
        } else {
            before
        }
    }
}

/// Writes the canonical bytes of a value.
pub fn hash_json_canonical(value: &Json, hasher: &mut StableHasher)
    requires
        old(hasher).wf(),
    ensures
        final(hasher).wf(),
        final(hasher)@ == old(hasher)@ + canonical(value@),
    decreases value,
{
    match value {
        Json::Null => {
            hasher.write(&[110u8]);
            proof {
                assert(hasher@ =~= old(hasher)@ + canonical(value@));
            }
        },
        Json::Bool(b) => {
            hasher.write(&[98u8]);
            if *b {
                hasher.write(&[1u8]);
            } else {
                hasher.write(&[0u8]);
            }
            proof {
                assert(hasher@ =~= old(hasher)@ + canonical(value@));
            }
        },
        Json::Number(t) => {
            hasher.write(&[35u8]);
            hasher.write_str(t.as_str());
            proof {
                assert(hasher@ =~= old(hasher)@ + canonical(value@));
            }
        },
        Json::Str(t) => {
            hasher.write(&[115u8]);
            hasher.write_str(t.as_str());
            proof {
                assert(hasher@ =~= old(hasher)@ + canonical(value@));
            }
        },
        Json::Array(items) => {
            proof {
                lemma_array_view(*items);
            }
            hasher.write(&[91u8]);
            hash_items(items, hasher);
            hasher.write(&[93u8]);
            proof {
                assert(hasher@ =~= old(hasher)@ + canonical(value@));
            }
        },
        Json::Object(members) => {
            proof {
                lemma_object_view(*members);
            }
            hasher.write(&[123u8]);
            hash_members(members, hasher);
            hasher.write(&[125u8]);
            proof {
                assert(hasher@ =~= old(hasher)@ + canonical(value@));
            }
        },
    }
}

fn hash_items(items: &Vec<Json>, hasher: &mut StableHasher)
    requires
        old(hasher).wf(),
    ensures
        final(hasher).wf(),
        final(hasher)@ == old(hasher)@ + canonical_items(items_view(items@), items@.len()),
    decreases items,
{
    let ghost view = items_view(items@);
    let mut i: usize = 0;
    proof {
        assert(hasher@ =~= old(hasher)@ + canonical_items(view, 0));
    }
    #[verifier::loop_isolation(false)]
    while i < items.len()
        invariant
            i <= items@.len(),
            hasher.wf(),
            hasher@ == old(hasher)@ + canonical_items(view, i as nat),
        decreases items@.len() - i,
    {
        let ghost before = hasher@;
        hash_json_canonical(&items[i], hasher);
        i += 1;
        proof {
            assert(view[i - 1] == items@[i - 1]@);
            assert(hasher@ == before + canonical(view[i - 1]));
            assert(hasher@ =~= old(hasher)@ + canonical_items(view, i as nat));
        }
    }
}

fn hash_members(members: &Vec<(String, Json)>, hasher: &mut StableHasher)
    requires
        old(hasher).wf(),
    ensures
        final(hasher).wf(),
        final(hasher)@ == old(hasher)@ + canonical_members(
            members_view(members@),
            names::key_order(keys_of(members_view(members@)), members@.len()),
        ),
    decreases members,
{
    let ghost view = members_view(members@);
    proof {
        assert(names::names_of(members@) =~= keys_of(view));
    }
    let order = names::sorted_order(members);
    let ghost want = names::key_order(keys_of(view), members@.len());
    let mut i: usize = 0;
    proof {
        assert(want.take(0) =~= Seq::empty());
        assert(hasher@ =~= old(hasher)@ + canonical_members(view, want.take(0)));
    }
    #[verifier::loop_isolation(false)]
    while i < order.len()
        invariant
            i <= order@.len(),
            hasher.wf(),
            hasher@ == old(hasher)@ + canonical_members(view, want.take(i as int)),
        decreases order@.len() - i,
    {
        let k = order[i];
        let ghost before = hasher@;
        hasher.write(&[107u8]);
        hasher.write_str(members[k].0.as_str());
        hash_json_canonical(&members[k].1, hasher);
        proof {
            assert(want.take(i + 1).drop_last() =~= want.take(i as int));
            assert(want.take(i + 1).last() == k);
            assert(view[k as int] == (members@[k as int].0@, members@[k as int].1@));
            assert(hasher@ =~= before + seq![107u8] + text_bytes(view[k as int].0) + canonical(
                view[k as int].1,
            ));
            assert(hasher@ =~= old(hasher)@ + canonical_members(view, want.take(i + 1)));
        }
        i += 1;
    }
    proof {
        assert(want.take(i as int) =~= want);
    }
}

/// The stable hash of a value: the same for the same content in every process, whatever
/// the order in which the members of its objects were written.
pub fn canonical_hash(value: &Json) -> (r: u64)
    ensures
        r == hash_of(canonical(value@)),
{
    let mut hasher = StableHasher::new();
    hash_json_canonical(value, &mut hasher);
    proof {
        assert(Seq::<u8>::empty() + canonical(value@) =~= canonical(value@));
    }
    hasher.finish()
}

/// A character inside a JSON string.
pub open spec fn json_escaped(c: char) -> Seq<char> {
    match c {
        '"' => seq!['\\', '"'],
        '\\' => seq!['\\', '\\'],
        '\u{8}' => seq!['\\', 'b'],
        '\u{c}' => seq!['\\', 'f'],
        '\n' => seq!['\\', 'n'],
        '\r' => seq!['\\', 'r'],
        '\t' => seq!['\\', 't'],
        _ => if (c as int) < 0x20 {
            let digits = "0123456789abcdef"@;
            seq!['\\', 'u', '0', '0', digits[c as int / 16], digits[c as int % 16]]
        } else {
            seq![c]
        },
    }
}

/// The first `n` characters inside a JSON string.
pub open spec fn json_escapes(s: Seq<char>, n: nat) -> Seq<char>
    decreases n,
{
    if n == 0 || n > s.len() {
        Seq::empty()
    } else {
        json_escapes(s, (n - 1) as nat) + json_escaped(s[n - 1])
    }
}

/// A text as a JSON string.
pub open spec fn json_quote(s: Seq<char>) -> Seq<char> {
    seq!['"'] + json_escapes(s, s.len()) + seq!['"']
}

/// `serde_json::Value::to_string` on a string value: the text in quotes, with quotes,
/// backslashes and control characters escaped.
#[verifier::external_body]
pub(crate) fn quote_json(s: &str) -> (r: String)
    ensures
        r@ == json_quote(s@),
{
    serde_json::Value::String(s.to_owned()).to_string()
}

/// The compact text of a value.
pub open spec fn json_text(v: JsonView) -> Seq<char>
    decreases v, 0nat,
{
    match v {
        JsonView::Null => "null"@,
        JsonView::Bool(b) => if b {
            "true"@
        } else {
            "false"@
        },
        JsonView::Number(t) => t,
        JsonView::Str(t) => json_quote(t),
        JsonView::Array(items) => "["@ + items_text(items, items.len()) + "]"@,
        JsonView::Object(members) => "{"@ + members_text(members, members.len()) + "}"@,
    }
}

pub open spec fn items_text(items: Seq<JsonView>, n: nat) -> Seq<char>
    decreases items, n,
{
    if n == 0 || n > items.len() {
        Seq::empty()
    } else {
        items_text(items, (n - 1) as nat) + (if n == 1 {
            Seq::empty()
        } else {
            ","@
        }) + json_text(items[n - 1])
    }
}

pub open spec fn members_text(members: Seq<(Seq<char>, JsonView)>, n: nat) -> Seq<char>
    decreases members, n,
{
    if n == 0 || n > members.len() {
        Seq::empty()
    } else {
        members_text(members, (n - 1) as nat) + (if n == 1 {
            Seq::empty()
        } else {
            ","@
        }) + json_quote(members[n - 1].0) + ":"@ + json_text(members[n - 1].1)
    }
}

/// Appends the compact text of a value.
pub fn push_json(out: &mut String, value: &Json)
    ensures
        final(out)@ == old(out)@ + json_text(value@),
    decreases value,
{
    match value {
        Json::Null => out.append("null"),
        Json::Bool(b) => if *b {
            out.append("true")
        } else {
            out.append("false")
        },
        Json::Number(t) => out.append(t.as_str()),
        Json::Str(t) => {
            let q = quote_json(t.as_str());
            out.append(q.as_str())
        },
        Json::Array(items) => {
            proof {
                lemma_array_view(*items);
            }
            out.append("[");
            push_items(out, items);
            out.append("]");
            proof {
                assert(out@ =~= old(out)@ + json_text(value@));
            }
        },
        Json::Object(members) => {
            proof {
                lemma_object_view(*members);
            }
            out.append("{");
            push_members(out, members);
            out.append("}");
            proof {
                assert(out@ =~= old(out)@ + json_text(value@));
            }
        },
    }
}

fn push_items(out: &mut String, items: &Vec<Json>)
    ensures
        final(out)@ == old(out)@ + items_text(items_view(items@), items@.len()),
    decreases items,
{
    let ghost view = items_view(items@);
    let mut i: usize = 0;
    proof {
        assert(out@ =~= old(out)@ + items_text(view, 0));
    }
    #[verifier::loop_isolation(false)]
    while i < items.len()
        invariant
            i <= items@.len(),
            out@ == old(out)@ + items_text(view, i as nat),
        decreases items@.len() - i,
    {
        let ghost before = out@;
        if i > 0 {
            out.append(",");
        }
        push_json(out, &items[i]);
        i += 1;
        proof {
            let sep = if i == 1 {
                Seq::empty()
            } else {
                ","@
            };
            assert(view[i - 1] == items@[i - 1]@);
            assert(out@ =~= before + sep + json_text(view[i - 1]));
            assert(out@ =~= old(out)@ + items_text(view, i as nat));
        }
    }
}

fn push_members(out: &mut String, members: &Vec<(String, Json)>)
    ensures
        final(out)@ == old(out)@ + members_text(members_view(members@), members@.len()),
    decreases members,
{
    let ghost view = members_view(members@);
    let mut i: usize = 0;
    proof {
        assert(out@ =~= old(out)@ + members_text(view, 0));
    }
    #[verifier::loop_isolation(false)]
    while i < members.len()
        invariant
            i <= members@.len(),
            out@ == old(out)@ + members_text(view, i as nat),
        decreases members@.len() - i,
    {
        let ghost before = out@;
        if i > 0 {
            out.append(",");
        }
        let q = quote_json(members[i].0.as_str());
        out.append(q.as_str());
        out.append(":");
        push_json(out, &members[i].1);
        i += 1;
        proof {
            let sep = if i == 1 {
                Seq::empty()
            } else {
                ","@
            };
            assert(view[i - 1] == (members@[i - 1].0@, members@[i - 1].1@));
            assert(out@ =~= before + sep + json_quote(view[i - 1].0) + ":"@ + json_text(
                view[i - 1].1,
            ));
            assert(out@ =~= old(out)@ + members_text(view, i as nat));
        }
    }
}

/// The array of the given items.
pub fn array(items: Vec<Json>) -> (r: Json)
    ensures
        r@ == JsonView::Array(items_view(items@)),
{
    proof {
        lemma_array_view(items);
    }
    Json::Array(items)
}

/// The object with the given members.
pub fn object(members: JsonMap) -> (r: Json)
    ensures
        r@ == JsonView::Object(members_view(members@)),
{
    proof {
        lemma_object_view(members);
    }
    Json::Object(members)
}

/// The compact text of a value.
pub fn json_string(value: &Json) -> (r: String)
    ensures
        r@ == json_text(value@),
{
    let mut out = String::new();
    push_json(&mut out, value);
    proof {
        assert(Seq::<char>::empty() + json_text(value@) =~= json_text(value@));
    }
    out
}

/// The first member with the name, or the number of members.
pub open spec fn member_index(members: Seq<(Seq<char>, JsonView)>, name: Seq<char>, from: int) -> int
    decreases members.len() - from,
{
    if from >= members.len() || members[from].0 == name {
        from
    } else {
        member_index(members, name, from + 1)
    }
}

/// The members with one written: in place of the one with that name, or at the end.
pub open spec fn with_member(
    members: Seq<(Seq<char>, JsonView)>,
    name: Seq<char>,
    value: JsonView,
) -> Seq<(Seq<char>, JsonView)> {
    let at = member_index(members, name, 0);
    if at < members.len() {
        members.update(at, (name, value))
    } else {
        members.push((name, value))
    }
}

/// The members with the first `n` others written over them.
pub open spec fn extended(
    members: Seq<(Seq<char>, JsonView)>,
    others: Seq<(Seq<char>, JsonView)>,
    n: nat,
) -> Seq<(Seq<char>, JsonView)>
    decreases n,
{
    if n == 0 || n > others.len() {
        members
    } else {
        with_member(
            extended(members, others, (n - 1) as nat),
            others[n - 1].0,
            others[n - 1].1,
        )
    }
}

/// Where the member with the name stands.
pub fn find_member(map: &JsonMap, name: &str) -> (r: usize)
    ensures
        r == member_index(members_view(map@), name@, 0),
        r <= map@.len(),
        r < map@.len() ==> map@[r as int].0@ == name@,
{
    let mut i: usize = 0;
    while i < map.len()
        invariant
            i <= map@.len(),
            member_index(members_view(map@), name@, 0) == member_index(
                members_view(map@),
                name@,
                i as int,
            ),
        decreases map@.len() - i,
    {
        if text::text_eq(map[i].0.as_str(), name) {
            return i;
        }
        i += 1;
    }
    i
}

/// Writes a member.
pub fn put_member(map: &mut JsonMap, name: String, value: Json)
    ensures
        members_view(final(map)@) == with_member(members_view(old(map)@), name@, value@),
{
    let at = find_member(map, name.as_str());
    let ghost before = map@;
    if at < map.len() {
        map.set(at, (name, value));
        proof {
            assert(members_view(map@) =~= members_view(before).update(
                at as int,
                (name@, value@),
            ));
        }
    } else {
        map.push((name, value));
        proof {
            assert(members_view(map@) =~= members_view(before).push((name@, value@)));
        }
    }
}

/// Writes copies of the members of another object.
pub fn extend_map(map: &mut JsonMap, others: &JsonMap)
    ensures
        members_view(final(map)@) == extended(
            members_view(old(map)@),
            members_view(others@),
            others@.len(),
        ),
{
    let mut i: usize = 0;
    while i < others.len()
        invariant
            i <= others@.len(),
            members_view(map@) == extended(
                members_view(old(map)@),
                members_view(others@),
                i as nat,
            ),
        decreases others@.len() - i,
    {
        put_member(map, others[i].0.clone(), others[i].1.clone());
        i += 1;
    }
}

/// No name occurs twice.
pub open spec fn distinct_names(members: Seq<(Seq<char>, JsonView)>) -> bool {
    forall|i: int, j: int|
        0 <= i < j < members.len() ==> (#[trigger] members[i]).0 != (#[trigger] members[j]).0
}

/// The values are equal but for the order of the members of objects, at any depth.
pub open spec fn reordered(a: JsonView, b: JsonView) -> bool
    decreases a,
{
    match (a, b) {
        (JsonView::Array(x), JsonView::Array(y)) => x.len() == y.len() && forall|i: int|
            0 <= i < x.len() ==> reordered(#[trigger] x[i], y[i]),
        (JsonView::Object(x), JsonView::Object(y)) => {
            &&& x.len() == y.len()
            &&& distinct_names(x)
            &&& distinct_names(y)
            &&& forall|j: int| 0 <= j < y.len() ==> keys_of(x).contains((#[trigger] y[j]).0)
            &&& forall|i: int|
                0 <= i < x.len() ==> keys_of(y).contains((#[trigger] x[i]).0) && reordered(
                    x[i].1,
                    y[keys_of(y).index_of(x[i].0)].1,
                )
        },
        (JsonView::Array(_), _) => false,
        (JsonView::Object(_), _) => false,
        _ => a == b,
    }
}

proof fn lemma_reordered_items(x: Seq<JsonView>, y: Seq<JsonView>, n: nat)
    requires
        x.len() == y.len(),
        n <= x.len(),
        forall|i: int| 0 <= i < x.len() ==> canonical(#[trigger] x[i]) == canonical(y[i]),
    ensures
        canonical_items(x, n) == canonical_items(y, n),
    decreases n,
{
    if n > 0 {
        lemma_reordered_items(x, y, (n - 1) as nat);
        assert(canonical(x[n - 1]) == canonical(y[n - 1]));
    }
}

proof fn lemma_reordered_members(
    x: Seq<(Seq<char>, JsonView)>,
    y: Seq<(Seq<char>, JsonView)>,
    p: Seq<int>,
    q: Seq<int>,
)
    requires
        p.len() == q.len(),
        forall|i: int| 0 <= i < p.len() ==> 0 <= #[trigger] p[i] < x.len(),
        forall|i: int| 0 <= i < q.len() ==> 0 <= #[trigger] q[i] < y.len(),
        forall|i: int|
            0 <= i < p.len() ==> x[#[trigger] p[i]].0 == y[q[i]].0 && canonical(x[p[i]].1)
                == canonical(y[q[i]].1),
    ensures
        canonical_members(x, p) == canonical_members(y, q),
    decreases p.len(),
{
    if p.len() > 0 {
        let a = p.drop_last();
        let b = q.drop_last();
        assert forall|i: int| 0 <= i < a.len() implies 0 <= #[trigger] a[i] < x.len() by {
            assert(a[i] == p[i]);
        }
        assert forall|i: int| 0 <= i < b.len() implies 0 <= #[trigger] b[i] < y.len() by {
            assert(b[i] == q[i]);
        }
        assert forall|i: int| 0 <= i < a.len() implies x[#[trigger] a[i]].0 == y[b[i]].0
            && canonical(x[a[i]].1) == canonical(y[b[i]].1) by {
            assert(a[i] == p[i] && b[i] == q[i]);
        }
        lemma_reordered_members(x, y, a, b);
        let last = p.len() - 1;
        assert(p.last() == p[last] && q.last() == q[last]);
        assert(x[p[last]].0 == y[q[last]].0);
    } else {
        assert(q.len() == 0);
    }
}

/// In the order of their names, the members of both objects have the same names.
pub proof fn lemma_same_names(x: Seq<(Seq<char>, JsonView)>, y: Seq<(Seq<char>, JsonView)>)
    requires
        x.len() == y.len(),
        distinct_names(x),
        distinct_names(y),
        forall|i: int| 0 <= i < x.len() ==> keys_of(y).contains((#[trigger] x[i]).0),
        forall|j: int| 0 <= j < y.len() ==> keys_of(x).contains((#[trigger] y[j]).0),
    ensures
        ({
            let p = names::key_order(keys_of(x), x.len());
            let q = names::key_order(keys_of(y), y.len());
            &&& names::is_key_order(keys_of(x), p, x.len())
            &&& names::is_key_order(keys_of(y), q, y.len())
            &&& forall|i: int| 0 <= i < x.len() ==> x[#[trigger] p[i]].0 == y[q[i]].0
        }),
{
    let p = names::key_order(keys_of(x), x.len());
    let q = names::key_order(keys_of(y), y.len());
    names::lemma_key_order(keys_of(x), x.len());
    names::lemma_key_order(keys_of(y), y.len());
    let a = Seq::new(x.len(), |i: int| x[p[i]].0);
    let b = Seq::new(y.len(), |i: int| y[q[i]].0);
    assert(names::increasing(a)) by {
        assert forall|i: int, j: int| 0 <= i < j < a.len() implies text::lex_less(
            #[trigger] a[i],
            #[trigger] a[j],
        ) by {
            assert(p[i] != p[j]);
            text::lemma_lex_total(a[i], a[j]);
            if p[i] < p[j] {
                assert(x[p[i]].0 != x[p[j]].0);
            } else {
                assert(x[p[j]].0 != x[p[i]].0);
            }
        }
    }
    assert(names::increasing(b)) by {
        assert forall|i: int, j: int| 0 <= i < j < b.len() implies text::lex_less(
            #[trigger] b[i],
            #[trigger] b[j],
        ) by {
            assert(q[i] != q[j]);
            text::lemma_lex_total(b[i], b[j]);
            if q[i] < q[j] {
                assert(y[q[i]].0 != y[q[j]].0);
            } else {
                assert(y[q[j]].0 != y[q[i]].0);
            }
        }
    }
    assert forall|i: int| 0 <= i < a.len() implies b.contains(#[trigger] a[i]) by {
        assert(keys_of(y).contains(x[p[i]].0));
        let j = choose|j: int| 0 <= j < keys_of(y).len() && keys_of(y)[j] == x[p[i]].0;
        assert(q.contains(j));
        let k = choose|k: int| 0 <= k < q.len() && q[k] == j;
        assert(b[k] == a[i]);
    }
    assert forall|i: int| 0 <= i < b.len() implies a.contains(#[trigger] b[i]) by {
        assert(keys_of(x).contains(y[q[i]].0));
        let j = choose|j: int| 0 <= j < keys_of(x).len() && keys_of(x)[j] == y[q[i]].0;
        assert(p.contains(j));
        let k = choose|k: int| 0 <= k < p.len() && p[k] == j;
        assert(a[k] == b[i]);
    }
    names::lemma_increasing_unique(a, b, a.len());
    assert forall|i: int| 0 <= i < x.len() implies x[#[trigger] p[i]].0 == y[q[i]].0 by {
        assert(a[i] == b[i]);
    }
}

/// The canonical bytes of a value, and with them its hash, do not depend on the order in which
/// the members of objects were written.
pub proof fn canonical_bytes_ignore_member_order(a: JsonView, b: JsonView)
    requires
        reordered(a, b),
    ensures
        canonical(a) == canonical(b),
        hash_of(canonical(a)) == hash_of(canonical(b)),
    decreases a,
{
    match (a, b) {
        (JsonView::Array(x), JsonView::Array(y)) => {
            assert forall|i: int| 0 <= i < x.len() implies canonical(#[trigger] x[i]) == canonical(
                y[i],
            ) by {
                canonical_bytes_ignore_member_order(x[i], y[i]);
            }
            lemma_reordered_items(x, y, x.len());
        },
        (JsonView::Object(x), JsonView::Object(y)) => {
            lemma_same_names(x, y);
            let p = names::key_order(keys_of(x), x.len());
            let q = names::key_order(keys_of(y), y.len());
            assert forall|i: int| 0 <= i < p.len() implies x[#[trigger] p[i]].0 == y[q[i]].0
                && canonical(x[p[i]].1) == canonical(y[q[i]].1) by {
                let name = x[p[i]].0;
                assert(keys_of(y).contains(name));
                let at = keys_of(y).index_of(name);
                assert(keys_of(y)[q[i]] == name);
                assert(at == q[i]) by {
                    if at < q[i] {
                        assert(y[at].0 != y[q[i]].0);
                    } else if at > q[i] {
                        assert(y[q[i]].0 != y[at].0);
                    }
                }
                canonical_bytes_ignore_member_order(x[p[i]].1, y[at].1);
            }
            lemma_reordered_members(x, y, p, q);
        },
        _ => {},
    }
}

} // verus!
