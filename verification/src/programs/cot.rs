//! A program that reasons before it answers.

use vstd::prelude::*;

verus! {

/// A field of a signature.
#[derive(Debug)]
pub struct MetaField {
    pub name: String,
    pub desc: String,
}

impl Clone for MetaField {
    fn clone(&self) -> (r: Self)
        ensures
            r == *self,
    {
        MetaField { name: self.name.clone(), desc: self.desc.clone() }
    }
}

/// A signature that is made at run time.
#[derive(Debug)]
pub struct MetaSignature {
    pub inputs: Vec<MetaField>,
    pub outputs: Vec<MetaField>,
}

fn clone_fields(fields: &Vec<MetaField>) -> (r: Vec<MetaField>)
    ensures
        r@ == fields@,
{
    let mut out: Vec<MetaField> = Vec::new();
    let mut i: usize = 0;
    while i < fields.len()
        invariant
            i <= fields@.len(),
            out@ == fields@.take(i as int),
        decreases fields@.len() - i,
    {
        out.push(fields[i].clone());
        i += 1;
        proof {
            assert(out@ =~= fields@.take(i as int));
        }
    }
    proof {
        assert(out@ =~= fields@);
    }
    out
}

impl Clone for MetaSignature {
    fn clone(&self) -> (r: Self)
        ensures
            r.inputs@ == self.inputs@,
            r.outputs@ == self.outputs@,
    {
        MetaSignature { inputs: clone_fields(&self.inputs), outputs: clone_fields(&self.outputs) }
    }
}

impl MetaSignature {
    /// Adds an input behind the others.
    pub fn append(&mut self, field: MetaField)
        ensures
            final(self).inputs@ == old(self).inputs@.push(field),
            final(self).outputs == old(self).outputs,
    {
        self.inputs.push(field);
    }

    /// Adds an output before the others.
    pub fn prepend(&mut self, field: MetaField)
        ensures
            final(self).outputs@ == seq![field] + old(self).outputs@,
            final(self).inputs == old(self).inputs,
    {
        let ghost before = self.outputs@;
        self.outputs.insert(0, field);
        proof {
            assert(self.outputs@ =~= seq![field] + before);
        }
    }
}

/// The field has the name and the description.
pub open spec fn is_field(f: MetaField, name: Seq<char>, desc: Seq<char>) -> bool {
    f.name@ == name && f.desc@ == desc
}

/// A predictor, by what it reads and gives.
#[derive(Debug)]
pub struct MetaPredict {
    pub signature: MetaSignature,
}

/// A program that reasons before it answers, and takes a hint where it is asked to. Its predictor
/// has its signature.
#[derive(Debug)]
pub struct ChainofThought {
    pub signature: MetaSignature,
    pub add_hint: bool,
    pub predictor: MetaPredict,
}

impl ChainofThought {
    /// The signature gets the hint as its last input, and the reasoning as its first output.
    pub fn new(signature: &mut MetaSignature, add_hint: bool) -> (r: Self)
        ensures
            r.add_hint == add_hint,
            r.signature.inputs@ == final(signature).inputs@,
            r.signature.outputs@ == final(signature).outputs@,
            r.predictor.signature.inputs@ == final(signature).inputs@,
            r.predictor.signature.outputs@ == final(signature).outputs@,
            final(signature).outputs@.len() == old(signature).outputs@.len() + 1,
            is_field(final(signature).outputs@[0], "reasoning"@, "A reasoning step"@),
            final(signature).outputs@.skip(1) == old(signature).outputs@,
            add_hint ==> final(signature).inputs@.len() == old(signature).inputs@.len() + 1
                && is_field(
                final(signature).inputs@.last(),
                "hint"@,
                "A hint to the answer"@,
            ) && final(signature).inputs@.drop_last() == old(signature).inputs@,
            !add_hint ==> final(signature).inputs@ == old(signature).inputs@,
    {
        let ghost start = signature.outputs@;
        if add_hint {
            signature.append(
                MetaField { name: "hint".to_owned(), desc: "A hint to the answer".to_owned() },
            );
            proof {
                assert(signature.inputs@.drop_last() =~= old(signature).inputs@);
            }
        }
        signature.prepend(
            MetaField { name: "reasoning".to_owned(), desc: "A reasoning step".to_owned() },
        );
        proof {
            assert(signature.outputs@.skip(1) =~= start);
        }
        let predictor = MetaPredict { signature: signature.clone() };
        ChainofThought { signature: signature.clone(), add_hint, predictor }
    }
}

/// The program asks for the reasoning before every output of the signature, takes a hint behind
/// every input where it is asked to, and leaves out no field.
pub proof fn programs_reason_before_they_answer(
    signature: &mut MetaSignature,
    add_hint: bool,
    r: ChainofThought,
    i: int,
    j: int,
)
    requires
        call_ensures(ChainofThought::new, (signature, add_hint), r),
    ensures
        r.predictor.signature.outputs@.len() == old(signature).outputs@.len() + 1,
        r.predictor.signature.outputs@[0].name@ == "reasoning"@,
        0 <= i < old(signature).outputs@.len() ==> r.predictor.signature.outputs@[i + 1] == old(signature).outputs@[i],
        0 <= j < old(signature).inputs@.len() ==> r.predictor.signature.inputs@[j] == old(signature).inputs@[j],
        add_hint ==> r.predictor.signature.inputs@.len() == old(signature).inputs@.len() + 1
            && r.predictor.signature.inputs@.last().name@ == "hint"@,
        !add_hint ==> r.predictor.signature.inputs@.len() == old(signature).inputs@.len(),
        r.signature.outputs@ == r.predictor.signature.outputs@,
        r.signature.inputs@ == r.predictor.signature.inputs@,
{
    let out = final(signature).outputs@;
    let ins = final(signature).inputs@;
    if 0 <= i < old(signature).outputs@.len() {
        assert(out.skip(1)[i] == out[i + 1]);
    }
    if add_hint && 0 <= j < old(signature).inputs@.len() {
        assert(ins.drop_last()[j] == ins[j]);
    }
}

} // verus!
