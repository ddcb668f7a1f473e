//! Transaction inputs and outputs, their models and their encodings.
use crate::codec::{copy_bytes, enc_bytes, put_bytes, put_u64_le, u64_le};
use crate::error::Error;
use crate::wallet::{address_key_hash, public_key_hash_from_address};
use vstd::prelude::*;

verus! {

/// A reference to an output of an earlier transaction, with the proof that
/// the spender may use it.
#[derive(Debug, Clone)]
pub struct TxInput {
    /// The id of the transaction whose output is spent; empty for a coinbase.
    pub id: Vec<u8>,
    /// The index of the spent output; -1 for a coinbase.
    pub out: i64,
    /// The DER-encoded signature; empty before signing.
    pub signature: Vec<u8>,
    /// The spender's public key once signed; arbitrary data in a coinbase.
    pub public_key_hash: Vec<u8>,
}

/// An amount locked to a public-key hash.
#[derive(Debug, Clone)]
pub struct TxOutput {
    pub value: u64,
    pub public_key_hash: Vec<u8>,
}

/// The still-unspent outputs of one transaction.
#[derive(Debug, Clone)]
pub struct TxOutputs {
    pub outputs: Vec<TxOutput>,
}

/// What an input is.
pub struct InputModel {
    pub id: Seq<u8>,
    pub out: i64,
    pub signature: Seq<u8>,
    pub public_key_hash: Seq<u8>,
}

/// What an output is.
pub struct OutputModel {
    pub value: u64,
    pub public_key_hash: Seq<u8>,
}

impl View for TxInput {
    type V = InputModel;

    open spec fn view(&self) -> InputModel {
        InputModel {
            id: self.id@,
            out: self.out,
            signature: self.signature@,
            public_key_hash: self.public_key_hash@,
        }
    }
}

impl View for TxOutput {
    type V = OutputModel;

    open spec fn view(&self) -> OutputModel {
        OutputModel { value: self.value, public_key_hash: self.public_key_hash@ }
    }
}

/// The models of a list of inputs.
pub open spec fn inputs_model(s: Seq<TxInput>) -> Seq<InputModel> {
    s.map_values(|i: TxInput| i@)
}

/// The models of a list of outputs.
pub open spec fn outputs_model(s: Seq<TxOutput>) -> Seq<OutputModel> {
    s.map_values(|o: TxOutput| o@)
}

impl View for TxOutputs {
    type V = Seq<OutputModel>;

    open spec fn view(&self) -> Seq<OutputModel> {
        outputs_model(self.outputs@)
    }
}

/// The encoding of an input.
pub open spec fn enc_input(i: InputModel) -> Seq<u8> {
    enc_bytes(i.id) + u64_le(i.out as u64) + enc_bytes(i.signature) + enc_bytes(i.public_key_hash)
}

/// The encoding of an output.
pub open spec fn enc_output(o: OutputModel) -> Seq<u8> {
    u64_le(o.value) + enc_bytes(o.public_key_hash)
}

/// The items of a list of inputs, encoded one after the other.
pub open spec fn enc_input_items(s: Seq<InputModel>) -> Seq<u8>
    decreases s.len(),
{
    if s.len() == 0 {
        seq![]
    } else {
        enc_input_items(s.drop_last()) + enc_input(s.last())
    }
}

/// The items of a list of outputs, encoded one after the other.
pub open spec fn enc_output_items(s: Seq<OutputModel>) -> Seq<u8>
    decreases s.len(),
{
    if s.len() == 0 {
        seq![]
    } else {
        enc_output_items(s.drop_last()) + enc_output(s.last())
    }
}

/// A list of inputs: its length, then its items.
pub open spec fn enc_inputs(s: Seq<InputModel>) -> Seq<u8> {
    u64_le(s.len() as u64) + enc_input_items(s)
}

/// A list of outputs: its length, then its items.
pub open spec fn enc_outputs(s: Seq<OutputModel>) -> Seq<u8> {
    u64_le(s.len() as u64) + enc_output_items(s)
}

impl TxInput {
    /// An input spending output `out` of transaction `id`, carrying the
    /// public-key hash that `address` names, or nothing for an empty
    /// address; `Err` where a non-empty address holds no public-key hash.
    pub fn new(id: Vec<u8>, out: i64, signature: Vec<u8>, address: &str) -> (r: Result<Self, Error>)
        ensures
            address@.len() == 0 ==> r is Ok && r->Ok_0@ == (InputModel {
                id: id@,
                out,
                signature: signature@,
                public_key_hash: seq![],
            }),
            address@.len() > 0 ==> match address_key_hash(address@) {
                Some(h) => r is Ok && r->Ok_0@ == (InputModel { id: id@, out, signature: signature@, public_key_hash: h }),
                None => r is Err,
            },
    {
        if address.is_empty() {
            return Ok(TxInput::with_key_hash(id, out, signature, Vec::new()));
        }
        let h = public_key_hash_from_address(address)?;
        Ok(TxInput::with_key_hash(id, out, signature, h))
    }

    /// An input spending output `out` of transaction `id`, carrying
    /// `public_key_hash` as it is.
    pub fn with_key_hash(id: Vec<u8>, out: i64, signature: Vec<u8>, public_key_hash: Vec<u8>) -> (r: Self)
        ensures
            r@ == (InputModel { id: id@, out, signature: signature@, public_key_hash: public_key_hash@ }),
    {
        TxInput { id, out, signature, public_key_hash }
    }

    /// Whether the input carries the public-key hash that `address` names.
    pub fn uses_key(&self, address: &str) -> (r: Result<bool, Error>)
        ensures
            r matches Ok(b) ==> address_key_hash(address@) matches Some(h) && b == (self.public_key_hash@ == h),
            r is Err <==> address_key_hash(address@) is None,
    {
        let h = public_key_hash_from_address(address)?;
        Ok(crate::codec::bytes_equal(&self.public_key_hash, &h))
    }

    /// A copy with the same model.
    pub fn duplicate(&self) -> (r: Self)
        ensures
            r@ == self@,
    {
        TxInput {
            id: copy_bytes(&self.id),
            out: self.out,
            signature: copy_bytes(&self.signature),
            public_key_hash: copy_bytes(&self.public_key_hash),
        }
    }

    /// Appends the encoding of the input.
    pub fn encode_into(&self, out: &mut Vec<u8>)
        ensures
            final(out)@ == old(out)@ + enc_input(self@),
    {
        put_bytes(out, &self.id);
        put_u64_le(out, self.out as u64);
        put_bytes(out, &self.signature);
        put_bytes(out, &self.public_key_hash);
        assert(final(out)@ =~= old(out)@ + enc_input(self@));
    }
}

impl TxOutput {
    /// An output of `value` locked to the public-key hash that `address` names.
    pub fn new(value: u64, address: &str) -> (r: Result<Self, Error>)
        ensures
            r matches Ok(o) ==> address_key_hash(address@) == Some(o.public_key_hash@) && o.value == value,
            r is Err <==> address_key_hash(address@) is None,
    {
        let public_key_hash = public_key_hash_from_address(address)?;
        Ok(TxOutput { value, public_key_hash })
    }

    /// Whether the output is locked to the public-key hash that `address` names.
    pub fn is_locked_with_key(&self, address: &str) -> (r: Result<bool, Error>)
        ensures
            r matches Ok(b) ==> address_key_hash(address@) matches Some(h) && b == (self.public_key_hash@ == h),
            r is Err <==> address_key_hash(address@) is None,
    {
        let h = public_key_hash_from_address(address)?;
        Ok(crate::codec::bytes_equal(&self.public_key_hash, &h))
    }

    /// A copy with the same model.
    pub fn duplicate(&self) -> (r: Self)
        ensures
            r@ == self@,
    {
        TxOutput { value: self.value, public_key_hash: copy_bytes(&self.public_key_hash) }
    }

    /// Appends the encoding of the output.
    pub fn encode_into(&self, out: &mut Vec<u8>)
        ensures
            final(out)@ == old(out)@ + enc_output(self@),
    {
        put_u64_le(out, self.value);
        put_bytes(out, &self.public_key_hash);
        assert(final(out)@ =~= old(out)@ + enc_output(self@));
    }
}

/// A copy of a list of outputs.
pub fn copy_outputs(s: &Vec<TxOutput>) -> (r: Vec<TxOutput>)
    ensures
        outputs_model(r@) == outputs_model(s@),
{
    let mut r: Vec<TxOutput> = Vec::new();
    let mut i: usize = 0;
    while i < s.len()
        invariant
            i <= s@.len(),
            r@.len() == i,
            forall|j: int| 0 <= j < i ==> (#[trigger] r@[j])@ == s@[j]@,
        decreases s@.len() - i,
    {
        r.push(s[i].duplicate());
        i = i + 1;
    }
    assert(outputs_model(r@) =~= outputs_model(s@));
    r
}

/// Appends the encoding of a list of inputs.
pub fn encode_inputs_into(s: &Vec<TxInput>, out: &mut Vec<u8>)
    ensures
        final(out)@ == old(out)@ + enc_inputs(inputs_model(s@)),
{
    put_u64_le(out, s.len() as u64);
    let ghost start = out@;
    let mut i: usize = 0;
    while i < s.len()
        invariant
            i <= s@.len(),
            start == old(out)@ + u64_le(s@.len() as u64),
            out@ == start + enc_input_items(inputs_model(s@.subrange(0, i as int))),
        decreases s@.len() - i,
    {
        s[i].encode_into(out);
        proof {
            let m = inputs_model(s@.subrange(0, i + 1));
            assert(m.drop_last() =~= inputs_model(s@.subrange(0, i as int)));
        }
        i = i + 1;
    }
    assert(s@.subrange(0, i as int) =~= s@);
}

/// Appends the encoding of a list of outputs.
pub fn encode_outputs_into(s: &Vec<TxOutput>, out: &mut Vec<u8>)
    ensures
        final(out)@ == old(out)@ + enc_outputs(outputs_model(s@)),
{
    put_u64_le(out, s.len() as u64);
    let ghost start = out@;
    let mut i: usize = 0;
    while i < s.len()
        invariant
            i <= s@.len(),
            start == old(out)@ + u64_le(s@.len() as u64),
            out@ == start + enc_output_items(outputs_model(s@.subrange(0, i as int))),
        decreases s@.len() - i,
    {
        s[i].encode_into(out);
        proof {
            let m = outputs_model(s@.subrange(0, i + 1));
            assert(m.drop_last() =~= outputs_model(s@.subrange(0, i as int)));
        }
        i = i + 1;
    }
    assert(s@.subrange(0, i as int) =~= s@);
}

impl TxOutputs {
    /// An empty list.
    pub fn new() -> (r: Self)
        ensures
            r@.len() == 0,
    {
        TxOutputs { outputs: Vec::new() }
    }

    /// The encoding of the list.
    pub fn serialize(&self) -> (r: Vec<u8>)
        ensures
            r@ == enc_outputs(self@),
    {
        let mut r: Vec<u8> = Vec::new();
        encode_outputs_into(&self.outputs, &mut r);
        assert(r@ =~= enc_outputs(self@));
        r
    }
}

} // verus!
