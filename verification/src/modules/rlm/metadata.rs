//! What is kept of the calls that a run makes.

use indexmap::IndexMap;
use vstd::prelude::*;

use crate::json::Json;
use crate::text;
use crate::text_laws;
use crate::trace::LmUsage;

verus! {

/// The map of `indexmap`, which keeps its entries in the order in which their keys came.
#[verifier::external_type_specification]
#[verifier::external_body]
#[verifier::reject_recursive_types(K)]
#[verifier::reject_recursive_types(V)]
#[verifier::reject_recursive_types(S)]
pub struct ExIndexMap<K, V, S>(IndexMap<K, V, S>);

/// Whether a constraint of a field held.
#[derive(Debug)]
pub struct ConstraintResult {
    pub label: String,
    pub expression: String,
    pub passed: bool,
}

/// What is known of a field beside its value.
#[derive(Debug)]
pub struct FieldMeta {
    pub raw_text: String,
    pub flags: Vec<String>,
    pub checks: Vec<ConstraintResult>,
}

pub struct ConstraintView {
    pub label: Seq<char>,
    pub expression: Seq<char>,
    pub passed: bool,
}

pub struct FieldMetaView {
    pub raw_text: Seq<char>,
    pub flags: Seq<Seq<char>>,
    pub checks: Seq<ConstraintView>,
}

impl View for ConstraintResult {
    type V = ConstraintView;

    open spec fn view(&self) -> ConstraintView {
        ConstraintView {
            label: self.label@,
            expression: self.expression@,
            passed: self.passed,
        }
    }
}

impl View for FieldMeta {
    type V = FieldMetaView;

    open spec fn view(&self) -> FieldMetaView {
        FieldMetaView {
            raw_text: self.raw_text@,
            flags: text::views(self.flags@),
            checks: Seq::new(self.checks@.len(), |i: int| self.checks@[i]@),
        }
    }
}

/// The entries of a map of fields, in their order.
pub uninterp spec fn field_metas(m: IndexMap<String, FieldMeta>) -> Seq<(Seq<char>, FieldMetaView)>;

/// The first entry from `from` on with the name, or the number of entries.
pub open spec fn entry_index(
    entries: Seq<(Seq<char>, FieldMetaView)>,
    name: Seq<char>,
    from: int,
) -> int
    decreases entries.len() - from,
{
    if from >= entries.len() {
        entries.len() as int
    } else if entries[from].0 == name {
        from
    } else {
        entry_index(entries, name, from + 1)
    }
}

/// An entry set: one of the name keeps its place, a new one comes last.
pub open spec fn with_entry(
    entries: Seq<(Seq<char>, FieldMetaView)>,
    name: Seq<char>,
    value: FieldMetaView,
) -> Seq<(Seq<char>, FieldMetaView)> {
    let i = entry_index(entries, name, 0);
    if i < entries.len() {
        entries.update(i, (name, value))
    } else {
        entries.push((name, value))
    }
}

/// The first `n` of other entries set, one after the other.
pub open spec fn with_entries(
    entries: Seq<(Seq<char>, FieldMetaView)>,
    others: Seq<(Seq<char>, FieldMetaView)>,
    n: nat,
) -> Seq<(Seq<char>, FieldMetaView)>
    decreases n,
{
    if n == 0 || n > others.len() {
        entries
    } else {
        with_entry(
            with_entries(entries, others, (n - 1) as nat),
            others[n - 1].0,
            others[n - 1].1,
        )
    }
}

/// `IndexMap::new` gives a map without entries.
#[verifier::external_body]
pub(crate) fn no_metas() -> (r: IndexMap<String, FieldMeta>)
    ensures
        field_metas(r) == Seq::<(Seq<char>, FieldMetaView)>::empty(),
{
    IndexMap::new()
}

/// `IndexMap::insert` sets the value of a key that is there without moving it, and puts a new
/// key last.
#[verifier::external_body]
pub(crate) fn insert_meta(m: &mut IndexMap<String, FieldMeta>, name: String, meta: FieldMeta)
    ensures
        field_metas(*final(m)) == with_entry(field_metas(*old(m)), name@, meta@),
{
    m.insert(name, meta);
}

/// `IndexMap::extend` inserts the entries of another map, in their order.
#[verifier::external_body]
pub(crate) fn extend_metas(
    m: &mut IndexMap<String, FieldMeta>,
    others: IndexMap<String, FieldMeta>,
)
    ensures
        field_metas(*final(m)) == with_entries(
            field_metas(*old(m)),
            field_metas(others),
            field_metas(others).len(),
        ),
{
    m.extend(others);
}

/// `IndexMap::get` gives the value of a key, if the key is there.
#[verifier::external_body]
pub(crate) fn get_meta<'a>(m: &'a IndexMap<String, FieldMeta>, name: &str) -> (r: Option<
    &'a FieldMeta,
>)
    ensures
        match r {
            Some(meta) => entry_index(field_metas(*m), name@, 0) < field_metas(*m).len()
                && field_metas(*m)[entry_index(field_metas(*m), name@, 0)].1 == meta@,
            None => entry_index(field_metas(*m), name@, 0) == field_metas(*m).len(),
        },
{
    m.get(name)
}

impl Clone for ConstraintResult {
    fn clone(&self) -> (r: Self)
        ensures
            r == *self,
    {
        ConstraintResult {
            label: self.label.clone(),
            expression: self.expression.clone(),
            passed: self.passed,
        }
    }
}

impl Clone for FieldMeta {
    fn clone(&self) -> (r: Self)
        ensures
            r@ == self@,
    {
        let mut checks: Vec<ConstraintResult> = Vec::new();
        let mut i: usize = 0;
        while i < self.checks.len()
            invariant
                i <= self.checks@.len(),
                checks@ == self.checks@.take(i as int),
            decreases self.checks@.len() - i,
        {
            checks.push(self.checks[i].clone());
            i += 1;
            proof {
                assert(checks@ =~= self.checks@.take(i as int));
            }
        }
        let r = FieldMeta {
            raw_text: self.raw_text.clone(),
            flags: text::clone_strings(&self.flags),
            checks,
        };
        proof {
            assert(r@.checks =~= self@.checks);
            assert(r@.flags =~= self@.flags);
        }
        r
    }
}

/// A call of a tool that a model asked for.
#[derive(Debug)]
pub struct ToolCall {
    pub id: String,
    pub name: String,
    pub arguments: Json,
}

/// What a call of a model leaves behind.
#[derive(Debug)]
pub struct CallMetadata {
    pub raw_response: String,
    pub lm_usage: LmUsage,
    pub tool_calls: Vec<ToolCall>,
    pub tool_executions: Vec<String>,
    pub node_id: Option<usize>,
    pub field_meta: IndexMap<String, FieldMeta>,
}

/// What the calls of a run have left behind so far.
#[derive(Debug)]
pub struct MetadataAcc {
    pub lm_usage: LmUsage,
    pub tool_calls: Vec<ToolCall>,
    pub tool_executions: Vec<String>,
    pub raw_responses: Vec<String>,
    pub field_meta: IndexMap<String, FieldMeta>,
}

impl MetadataAcc {
    pub fn new() -> (r: Self)
        ensures
            r.lm_usage == LmUsage::zero(),
            r.tool_calls@.len() == 0,
            r.tool_executions@.len() == 0,
            r.raw_responses@.len() == 0,
            field_metas(r.field_meta).len() == 0,
    {
        MetadataAcc {
            lm_usage: LmUsage::default(),
            tool_calls: Vec::new(),
            tool_executions: Vec::new(),
            raw_responses: Vec::new(),
            field_meta: no_metas(),
        }
    }

    /// What a call left was added.
    pub open spec fn absorbs(before: MetadataAcc, after: MetadataAcc, call: CallMetadata) -> bool {
        &&& after.lm_usage == before.lm_usage.sum(call.lm_usage)
        &&& after.tool_calls@ == before.tool_calls@ + call.tool_calls@
        &&& after.tool_executions@ == before.tool_executions@ + call.tool_executions@
        &&& after.raw_responses@ == before.raw_responses@.push(call.raw_response)
        &&& field_metas(after.field_meta) == with_entries(
            field_metas(before.field_meta),
            field_metas(call.field_meta),
            field_metas(call.field_meta).len(),
        )
    }

    pub fn absorb_call_metadata(&mut self, metadata: CallMetadata)
        ensures
            MetadataAcc::absorbs(*old(self), *final(self), metadata),
    {
        let mut call = metadata;
        self.lm_usage = self.lm_usage.plus(call.lm_usage);
        self.tool_calls.append(&mut call.tool_calls);
        self.tool_executions.append(&mut call.tool_executions);
        self.raw_responses.push(call.raw_response);
        extend_metas(&mut self.field_meta, call.field_meta);
    }

    /// A reply that could not be read was added.
    pub open spec fn absorbs_parse(
        before: MetadataAcc,
        after: MetadataAcc,
        raw_response: String,
        lm_usage: LmUsage,
    ) -> bool {
        &&& after.lm_usage == before.lm_usage.sum(lm_usage)
        &&& after.tool_calls == before.tool_calls
        &&& after.tool_executions == before.tool_executions
        &&& after.raw_responses@ == before.raw_responses@.push(raw_response)
        &&& after.field_meta == before.field_meta
    }

    pub fn absorb_parse_metadata(&mut self, raw_response: String, lm_usage: LmUsage)
        ensures
            MetadataAcc::absorbs_parse(*old(self), *final(self), raw_response, lm_usage),
    {
        self.lm_usage = self.lm_usage.plus(lm_usage);
        self.raw_responses.push(raw_response);
    }

    /// What the calls left, as that of one call: the replies stand one below the other.
    pub open spec fn becomes(self, call: CallMetadata) -> bool {
        &&& call.raw_response@ == text::join(text::views(self.raw_responses@), "\n\n"@)
        &&& call.lm_usage == self.lm_usage
        &&& call.tool_calls == self.tool_calls
        &&& call.tool_executions == self.tool_executions
        &&& call.node_id is None
        &&& call.field_meta == self.field_meta
    }

    pub fn into_call_metadata(self) -> (r: CallMetadata)
        ensures
            self.becomes(r),
    {
        let raw_response = text::join_strs(&self.raw_responses, "\n\n");
        CallMetadata {
            raw_response,
            lm_usage: self.lm_usage,
            tool_calls: self.tool_calls,
            tool_executions: self.tool_executions,
            node_id: None,
            field_meta: self.field_meta,
        }
    }
}

/// What a call left is added to what was there: its tokens, its tool calls and executions behind
/// those before it, and its reply as the last one.
pub proof fn what_a_call_left_is_added(acc: &mut MetadataAcc, call: CallMetadata, i: int)
    requires
        call_ensures(MetadataAcc::absorb_call_metadata, (acc, call), ()),
    ensures
        old(acc).lm_usage.total_tokens + call.lm_usage.total_tokens <= u64::MAX ==> final(acc).lm_usage.total_tokens == old(acc).lm_usage.total_tokens + call.lm_usage.total_tokens,
        old(acc).lm_usage.prompt_tokens + call.lm_usage.prompt_tokens <= u64::MAX ==> final(acc).lm_usage.prompt_tokens == old(acc).lm_usage.prompt_tokens + call.lm_usage.prompt_tokens,
        old(acc).lm_usage.completion_tokens + call.lm_usage.completion_tokens <= u64::MAX ==> final(acc).lm_usage.completion_tokens == old(acc).lm_usage.completion_tokens
            + call.lm_usage.completion_tokens,
        final(acc).raw_responses@.len() == old(acc).raw_responses@.len() + 1,
        final(acc).raw_responses@.last() == call.raw_response,
        0 <= i < old(acc).raw_responses@.len() ==> final(acc).raw_responses@[i] == old(acc).raw_responses@[i],
        final(acc).tool_calls@.len() == old(acc).tool_calls@.len() + call.tool_calls@.len(),
        0 <= i < old(acc).tool_calls@.len() ==> final(acc).tool_calls@[i] == old(acc).tool_calls@[i],
        0 <= i < call.tool_calls@.len() ==> final(acc).tool_calls@[old(acc).tool_calls@.len() + i]
            == call.tool_calls@[i],
        final(acc).tool_executions@.len() == old(acc).tool_executions@.len()
            + call.tool_executions@.len(),
        0 <= i < call.tool_executions@.len() ==> final(acc).tool_executions@[old(acc).tool_executions@.len() + i] == call.tool_executions@[i],
{
}

/// The calls of a run are handed on as one: with all their tokens and tool calls, and with every
/// reply in its place.
pub proof fn every_reply_of_a_run_is_handed_on(acc: MetadataAcc, r: CallMetadata, i: int)
    requires
        call_ensures(MetadataAcc::into_call_metadata, (acc,), r),
    ensures
        r.lm_usage == acc.lm_usage,
        r.tool_calls == acc.tool_calls,
        r.tool_executions == acc.tool_executions,
        r.field_meta == acc.field_meta,
        0 <= i < acc.raw_responses@.len() ==> text::has_text(
            r.raw_response@,
            acc.raw_responses@[i]@,
        ),
        acc.raw_responses@.len() == 1 ==> r.raw_response@ == acc.raw_responses@[0]@,
{
    let parts = text::views(acc.raw_responses@);
    if 0 <= i < parts.len() {
        text_laws::lemma_join_at(parts, "\n\n"@, i);
        assert(parts[i] == acc.raw_responses@[i]@);
    }
    if parts.len() == 1 {
        text_laws::lemma_join_at(parts, "\n\n"@, 0);
        assert(parts[0] == acc.raw_responses@[0]@);
        assert(parts =~= seq![parts[0]]);
    }
}

} // verus!
