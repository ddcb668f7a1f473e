//! Transactions: canonical hashing, the trimmed copy, signing and
//! verification of inputs.
use crate::codec::{copy_bytes, enc_bytes, put_bytes};
use crate::crypto::{ecdsa_accepts, ecdsa_signature_of, ecdsa_verify, random_bytes, secret_valid, sha256, sha256_of};
use crate::error::Error;
use crate::tx::{
    copy_outputs, enc_inputs, enc_outputs, encode_inputs_into, encode_outputs_into, inputs_model,
    outputs_model, InputModel, OutputModel, TxInput, TxOutput,
};
use crate::wallet::{address_key_hash, Wallet};
use vstd::prelude::*;

verus! {

/// The coinbase reward.
pub const REWARD: u64 = 20;

/// A transfer of value from earlier outputs to new ones.
#[derive(Debug, Clone)]
pub struct Transaction {
    pub id: Vec<u8>,
    pub inputs: Vec<TxInput>,
    pub outputs: Vec<TxOutput>,
}

/// What a transaction is.
pub struct TransactionModel {
    pub id: Seq<u8>,
    pub inputs: Seq<InputModel>,
    pub outputs: Seq<OutputModel>,
}

impl View for Transaction {
    type V = TransactionModel;

    open spec fn view(&self) -> TransactionModel {
        TransactionModel {
            id: self.id@,
            inputs: inputs_model(self.inputs@),
            outputs: outputs_model(self.outputs@),
        }
    }
}

/// The models of a list of transactions.
pub open spec fn txs_model(s: Seq<Transaction>) -> Seq<TransactionModel> {
    s.map_values(|t: Transaction| t@)
}

/// The canonical encoding of a transaction.
pub open spec fn enc_tx(t: TransactionModel) -> Seq<u8> {
    enc_bytes(t.id) + enc_inputs(t.inputs) + enc_outputs(t.outputs)
}

/// The id of a transaction with these inputs and outputs: the SHA-256 of its
/// encoding with the id field empty.
pub open spec fn tx_digest(inputs: Seq<InputModel>, outputs: Seq<OutputModel>) -> Seq<u8> {
    sha256_of(enc_tx(TransactionModel { id: seq![], inputs, outputs }))
}

/// A coinbase has one input, with an empty transaction id and index -1.
pub open spec fn is_coinbase_model(t: TransactionModel) -> bool {
    t.inputs.len() == 1 && t.inputs[0].id.len() == 0 && t.inputs[0].out == -1
}

/// An input with its signature and public-key slot cleared.
pub open spec fn trim_input(i: InputModel) -> InputModel {
    InputModel { id: i.id, out: i.out, signature: seq![], public_key_hash: seq![] }
}

/// The inputs of the trimmed copy.
pub open spec fn trimmed_inputs(s: Seq<InputModel>) -> Seq<InputModel> {
    s.map_values(|i: InputModel| trim_input(i))
}

/// The inputs whose digest input `k` signs: all trimmed, with the public-key
/// hash of the output it spends in the slot of input `k`.
pub open spec fn signing_inputs(s: Seq<InputModel>, k: int, key_hash: Seq<u8>) -> Seq<InputModel> {
    trimmed_inputs(s).update(k, InputModel { public_key_hash: key_hash, ..trim_input(s[k]) })
}

/// The 32-byte digest that input `k` signs: SHA256 of the trimmed copy's id.
pub open spec fn signing_digest(t: TransactionModel, k: int, key_hash: Seq<u8>) -> Seq<u8> {
    sha256_of(tx_digest(signing_inputs(t.inputs, k, key_hash), t.outputs))
}

/// The position of the first transaction with id `id`.
pub open spec fn index_of_id(s: Seq<TransactionModel>, id: Seq<u8>) -> Option<int>
    decreases s.len(),
{
    if s.len() == 0 {
        None
    } else {
        match index_of_id(s.drop_last(), id) {
            Some(k) => Some(k),
            None => if s.last().id == id {
                Some(s.len() - 1)
            } else {
                None
            },
        }
    }
}

/// The public-key hash of the output that an input spends, looked up among
/// `prev`; `None` where the input names no such transaction or output.
pub open spec fn spent_key_hash(prev: Seq<TransactionModel>, i: InputModel) -> Option<Seq<u8>> {
    if i.id.len() == 0 {
        None
    } else {
        match index_of_id(prev, i.id) {
            Some(k) => if 0 <= i.out < prev[k].outputs.len() {
                Some(prev[k].outputs[i.out as int].public_key_hash)
            } else {
                None
            },
            None => None,
        }
    }
}

/// Every input of `t` spends an output found among `prev`.
pub open spec fn inputs_resolve(prev: Seq<TransactionModel>, t: TransactionModel) -> bool {
    forall|k: int| 0 <= k < t.inputs.len() ==> (#[trigger] spent_key_hash(prev, t.inputs[k])) is Some
}

/// Input `k` carries a public key under which its signature verifies.
pub open spec fn input_verifies(prev: Seq<TransactionModel>, t: TransactionModel, k: int) -> bool {
    match spent_key_hash(prev, t.inputs[k]) {
        Some(h) => ecdsa_accepts(t.inputs[k].public_key_hash, signing_digest(t, k, h), t.inputs[k].signature),
        None => false,
    }
}

/// A transaction is valid: a coinbase, or every input verifies.
pub open spec fn tx_verifies(prev: Seq<TransactionModel>, t: TransactionModel) -> bool {
    is_coinbase_model(t) || forall|k: int| 0 <= k < t.inputs.len() ==> input_verifies(prev, t, k)
}

/// `new` is `old` signed with the key pair (`secret`, `public_key`): the ids,
/// indices and outputs are kept, and each input carries the public key and a
/// signature, made with the secret, that verifies under it.
pub open spec fn signed_from(
    prev: Seq<TransactionModel>,
    old: TransactionModel,
    new: TransactionModel,
    public_key: Seq<u8>,
) -> bool {
    &&& new.id == old.id
    &&& new.outputs == old.outputs
    &&& new.inputs.len() == old.inputs.len()
    &&& inputs_resolve(prev, old)
    &&& forall|k: int| 0 <= k < old.inputs.len() ==> {
        &&& (#[trigger] new.inputs[k]).id == old.inputs[k].id
        &&& new.inputs[k].out == old.inputs[k].out
        &&& new.inputs[k].public_key_hash == public_key
        &&& ecdsa_accepts(public_key, signing_digest(old, k, spent_key_hash(prev, old.inputs[k])->0), new.inputs[k].signature)
    }
}

/// A found position lies in the list and holds the id.
pub proof fn lemma_index_of_id(s: Seq<TransactionModel>, id: Seq<u8>)
    ensures
        index_of_id(s, id) matches Some(k) ==> 0 <= k < s.len() && s[k].id == id,
        index_of_id(s, id) is None ==> forall|k: int| 0 <= k < s.len() ==> s[k].id != id,
    decreases s.len(),
{
    if s.len() > 0 {
        lemma_index_of_id(s.drop_last(), id);
        assert forall|k: int| 0 <= k < s.len() - 1 implies s[k] == s.drop_last()[k] by {}
    }
}

/// The position of the first transaction with id `id`.
pub fn find_by_id(s: &Vec<Transaction>, id: &[u8]) -> (r: Option<usize>)
    ensures
        r matches Some(k) ==> index_of_id(txs_model(s@), id@) == Some(k as int),
        r is None ==> index_of_id(txs_model(s@), id@) is None,
{
    let mut i: usize = 0;
    while i < s.len()
        invariant
            i <= s@.len(),
            index_of_id(txs_model(s@.subrange(0, i as int)), id@) is None,
        decreases s@.len() - i,
    {
        assert(txs_model(s@.subrange(0, i + 1)).drop_last() =~= txs_model(s@.subrange(0, i as int)));
        if crate::codec::bytes_equal(&s[i].id, id) {
            proof {
                lemma_index_of_prefix(txs_model(s@), id@, i as int + 1);
                assert(txs_model(s@).subrange(0, i + 1) =~= txs_model(s@.subrange(0, i + 1)));
            }
            return Some(i);
        }
        i = i + 1;
    }
    assert(s@.subrange(0, i as int) =~= s@);
    None
}

/// A first match in a prefix is the first match in the whole.
pub proof fn lemma_index_of_prefix(s: Seq<TransactionModel>, id: Seq<u8>, n: int)
    requires
        0 <= n <= s.len(),
        index_of_id(s.subrange(0, n), id) is Some,
    ensures
        index_of_id(s, id) == index_of_id(s.subrange(0, n), id),
    decreases s.len(),
{
    if n < s.len() {
        assert(s.drop_last().subrange(0, n) =~= s.subrange(0, n));
        lemma_index_of_prefix(s.drop_last(), id, n);
    } else {
        assert(s.subrange(0, n) =~= s);
    }
}

/// The public-key hash of the output that `input` spends.
pub fn spent_output_key_hash(prev: &Vec<Transaction>, input: &TxInput) -> (r: Result<Vec<u8>, Error>)
    ensures
        r matches Ok(h) ==> spent_key_hash(txs_model(prev@), input@) == Some(h@),
        r is Err ==> spent_key_hash(txs_model(prev@), input@) is None,
        r is Err ==> r == Err::<Vec<u8>, Error>(Error::TransactionNotFound) || r == Err::<Vec<u8>, Error>(
            Error::OutputNotFound,
        ),
{
    if input.id.len() == 0 {
        return Err(Error::TransactionNotFound);
    }
    match find_by_id(prev, &input.id) {
        Some(k) => {
            proof {
                lemma_index_of_id(txs_model(prev@), input.id@);
            }
            let t = &prev[k];
            assert(txs_model(prev@)[k as int] == t@);
            if input.out >= 0 && (input.out as u64) < (t.outputs.len() as u64) {
                let o = input.out as usize;
                Ok(copy_bytes(&t.outputs[o].public_key_hash))
            } else {
                Err(Error::OutputNotFound)
            }
        },
        None => Err(Error::TransactionNotFound),
    }
}

impl Transaction {
    /// The canonical encoding.
    pub fn serialize(&self) -> (r: Vec<u8>)
        ensures
            r@ == enc_tx(self@),
    {
        let mut r: Vec<u8> = Vec::new();
        put_bytes(&mut r, &self.id);
        encode_inputs_into(&self.inputs, &mut r);
        encode_outputs_into(&self.outputs, &mut r);
        assert(r@ =~= enc_tx(self@));
        r
    }

    /// Whether this is a coinbase transaction.
    pub fn is_coinbase(&self) -> (r: bool)
        ensures
            r == is_coinbase_model(self@),
    {
        self.inputs.len() == 1 && self.inputs[0].id.len() == 0 && self.inputs[0].out == -1
    }

    /// Sets the id to the SHA-256 of the encoding with the id cleared.
    pub fn hash(&mut self)
        ensures
            final(self)@ == (TransactionModel { id: tx_digest(old(self)@.inputs, old(self)@.outputs), ..old(self)@ }),
    {
        self.id = Vec::new();
        let encoded = self.serialize();
        assert(self@.id =~= Seq::<u8>::empty());
        self.id = sha256(&encoded);
    }

    /// A copy of the transaction with every input's signature and public-key
    /// slot cleared.
    pub fn trimmed_copy(&self) -> (r: Self)
        ensures
            r@ == (TransactionModel { inputs: trimmed_inputs(self@.inputs), ..self@ }),
    {
        let mut inputs: Vec<TxInput> = Vec::new();
        let mut i: usize = 0;
        while i < self.inputs.len()
            invariant
                i <= self.inputs@.len(),
                inputs@.len() == i,
                forall|j: int| 0 <= j < i ==> (#[trigger] inputs@[j])@ == trim_input(self.inputs@[j]@),
            decreases self.inputs@.len() - i,
        {
            let input = &self.inputs[i];
            inputs.push(TxInput::with_key_hash(copy_bytes(&input.id), input.out, Vec::new(), Vec::new()));
            i = i + 1;
        }
        let r = Transaction { id: copy_bytes(&self.id), inputs, outputs: copy_outputs(&self.outputs) };
        assert(r@.inputs =~= trimmed_inputs(self@.inputs));
        r
    }

    /// The id of the trimmed copy that input `k` signs, given the public-key
    /// hash of the output it spends; the signed digest is its SHA-256.
    fn signing_id(&self, k: usize, key_hash: &Vec<u8>) -> (r: Vec<u8>)
        requires
            k < self.inputs@.len(),
        ensures
            r@ == tx_digest(signing_inputs(self@.inputs, k as int, key_hash@), self@.outputs),
    {
        let mut copy = self.trimmed_copy();
        assert(copy@.inputs.len() == copy.inputs@.len());
        let input = &copy.inputs[k];
        let replaced = TxInput::with_key_hash(copy_bytes(&input.id), input.out, Vec::new(), copy_bytes(key_hash));
        let ghost m0 = copy@;
        let ghost r0 = replaced@;
        assert(m0.inputs[k as int] == copy.inputs@[k as int]@);
        assert(m0.inputs[k as int] == trim_input(self@.inputs[k as int]));
        assert(r0 == InputModel { public_key_hash: key_hash@, ..trim_input(self@.inputs[k as int]) });
        copy.inputs.set(k, replaced);
        assert forall|j: int| 0 <= j < m0.inputs.len() implies #[trigger] copy@.inputs[j] == (if j == k {
            r0
        } else {
            m0.inputs[j]
        }) by {}
        assert(copy@.inputs =~= signing_inputs(self@.inputs, k as int, key_hash@));
        copy.hash();
        copy.id
    }

    /// Signs every input with `wallet`, whose public key then stands in each
    /// input's public-key slot. A coinbase is left as it is. Fails, and leaves
    /// the transaction as it was, where an input spends no output among
    /// `prev` or the signature cannot be made.
    pub fn sign(&mut self, wallet: &Wallet, prev: &Vec<Transaction>) -> (r: Result<(), Error>)
        requires
            wallet.wf(),
        ensures
            is_coinbase_model(old(self)@) ==> r is Ok && final(self)@ == old(self)@,
            !is_coinbase_model(old(self)@) && r is Ok ==> signed_from(txs_model(prev@), old(self)@, final(self)@, wallet.public_view()),
            r is Err ==> final(self)@ == old(self)@,
            !is_coinbase_model(old(self)@) && !inputs_resolve(txs_model(prev@), old(self)@) ==> r is Err,
            !is_coinbase_model(old(self)@) && inputs_resolve(txs_model(prev@), old(self)@) ==> r is Ok,
            !is_coinbase_model(old(self)@) && r is Ok ==> forall|k: int|
                0 <= k < old(self)@.inputs.len() ==> (#[trigger] final(self)@.inputs[k]).signature == ecdsa_signature_of(
                    wallet.secret_view(),
                    signing_digest(old(self)@, k, spent_key_hash(txs_model(prev@), old(self)@.inputs[k])->0),
                ),
    {
        if self.is_coinbase() {
            return Ok(());
        }
        let n = self.inputs.len();
        let mut sigs: Vec<Vec<u8>> = Vec::new();
        let mut i: usize = 0;
        while i < n
            invariant
                n == self.inputs@.len(),
                *self == *old(self),
                !is_coinbase_model(old(self)@),
                wallet.wf(),
                i <= n,
                sigs@.len() == i,
                forall|k: int| 0 <= k < i ==> (#[trigger] spent_key_hash(txs_model(prev@), self@.inputs[k])) is Some,
                forall|k: int| 0 <= k < i ==> ecdsa_accepts(
                    wallet.public_view(),
                    signing_digest(self@, k, spent_key_hash(txs_model(prev@), self@.inputs[k])->0),
                    (#[trigger] sigs@[k])@,
                ),
                forall|k: int| 0 <= k < i ==> (#[trigger] sigs@[k])@ == ecdsa_signature_of(
                    wallet.secret_view(),
                    signing_digest(self@, k, spent_key_hash(txs_model(prev@), self@.inputs[k])->0),
                ),
            decreases n - i,
        {
            let key_hash = match spent_output_key_hash(prev, &self.inputs[i]) {
                Ok(h) => h,
                Err(e) => {
                    proof {
                        assert(!(spent_key_hash(txs_model(prev@), self@.inputs[i as int]) is Some));
                    }
                    return Err(e);
                },
            };
            let id = self.signing_id(i, &key_hash);
            let sig = match wallet.sign(&id) {
                Ok(sig) => sig,
                Err(e) => {
                    assert(!secret_valid(wallet.secret_view()));
                    return Err(e);
                },
            };
            sigs.push(sig);
            i = i + 1;
        }
        let ghost before = self@;
        let mut j: usize = 0;
        while j < n
            invariant
                n == self.inputs@.len(),
                n == sigs@.len(),
                j <= n,
                before == old(self)@,
                before.inputs.len() == n,
                self@.id == before.id,
                self@.outputs == before.outputs,
                forall|k: int| j <= k < n ==> (#[trigger] self@.inputs[k]) == before.inputs[k],
                forall|k: int| 0 <= k < j ==> (#[trigger] self@.inputs[k]) == (InputModel {
                    signature: sigs@[k]@,
                    public_key_hash: wallet.public_view(),
                    ..before.inputs[k]
                }),
            decreases n - j,
        {
            let input = &self.inputs[j];
            let signed = TxInput::with_key_hash(
                copy_bytes(&input.id),
                input.out,
                copy_bytes(&sigs[j]),
                copy_bytes(wallet.public_key()),
            );
            let ghost m0 = self@;
            let ghost s0 = signed@;
            assert(m0.inputs[j as int] == before.inputs[j as int]);
            assert(m0.inputs[j as int] == self.inputs@[j as int]@);
            assert(s0 == (InputModel {
                signature: sigs@[j as int]@,
                public_key_hash: wallet.public_view(),
                ..before.inputs[j as int]
            }));
            self.inputs.set(j, signed);
            assert forall|k: int| 0 <= k < n implies #[trigger] self@.inputs[k] == (if k == j {
                s0
            } else {
                m0.inputs[k]
            }) by {}
            j = j + 1;
        }
        Ok(())
    }

    /// Checks every input's signature against the digest that it signs. A
    /// coinbase passes. Fails with the lookup's error where an input spends
    /// no output among `prev`, and with `Error::InvalidTransaction` where a
    /// signature does not verify.
    pub fn verify(&self, prev: &Vec<Transaction>) -> (r: Result<(), Error>)
        ensures
            r is Ok <==> tx_verifies(txs_model(prev@), self@),
            !is_coinbase_model(self@) && !inputs_resolve(txs_model(prev@), self@) ==> r is Err && r
                != Err::<(), Error>(Error::InvalidTransaction),
            !is_coinbase_model(self@) && inputs_resolve(txs_model(prev@), self@) && !tx_verifies(txs_model(prev@), self@)
                ==> r == Err::<(), Error>(Error::InvalidTransaction),
    {
        if self.is_coinbase() {
            return Ok(());
        }
        let ghost p = txs_model(prev@);
        let n = self.inputs.len();
        let mut i: usize = 0;
        while i < n
            invariant
                n == self.inputs@.len(),
                n == self@.inputs.len(),
                i <= n,
                !is_coinbase_model(self@),
                p == txs_model(prev@),
                forall|k: int| 0 <= k < i ==> (#[trigger] spent_key_hash(p, self@.inputs[k])) is Some,
            decreases n - i,
        {
            match spent_output_key_hash(prev, &self.inputs[i]) {
                Ok(_) => {},
                Err(e) => {
                    assert(!(spent_key_hash(p, self@.inputs[i as int]) is Some));
                    assert(!input_verifies(p, self@, i as int));
                    return Err(e);
                },
            }
            i = i + 1;
        }
        let mut j: usize = 0;
        while j < n
            invariant
                n == self.inputs@.len(),
                n == self@.inputs.len(),
                j <= n,
                !is_coinbase_model(self@),
                p == txs_model(prev@),
                inputs_resolve(p, self@),
                forall|k: int| 0 <= k < j ==> input_verifies(p, self@, k),
            decreases n - j,
        {
            let input = &self.inputs[j];
            let key_hash = match spent_output_key_hash(prev, input) {
                Ok(h) => h,
                Err(_) => {
                    assert(spent_key_hash(p, self@.inputs[j as int]) is Some);
                    return Err(Error::TransactionNotFound);
                },
            };
            let digest = sha256(&self.signing_id(j, &key_hash));
            if !ecdsa_verify(&input.public_key_hash, &digest, &input.signature) {
                assert(!input_verifies(p, self@, j as int));
                return Err(Error::InvalidTransaction);
            }
            j = j + 1;
        }
        Ok(())
    }

    /// A coinbase paying the reward to `to`, with `data` in the public-key
    /// slot of its single input; `Err` where `to` holds no public-key hash.
    pub fn coinbase_with_data(to: &str, data: Vec<u8>) -> (r: Result<Self, Error>)
        ensures
            r matches Ok(t) ==> is_coinbase_model(t@) && t@.inputs[0].public_key_hash == data@
                && t@.inputs[0].signature.len() == 0 && t@.outputs == seq![
                    OutputModel { value: REWARD, public_key_hash: address_key_hash(to@)->0 },
                ] && t@.id == tx_digest(t@.inputs, t@.outputs),
            r is Err <==> address_key_hash(to@) is None,
    {
        let input = TxInput::with_key_hash(Vec::new(), -1, Vec::new(), data);
        let output = TxOutput::new(REWARD, to)?;
        let mut tx = Transaction { id: Vec::new(), inputs: vec![input], outputs: vec![output] };
        assert(tx@.outputs =~= seq![OutputModel { value: REWARD, public_key_hash: address_key_hash(to@)->0 }]);
        tx.hash();
        Ok(tx)
    }

    /// A coinbase paying the reward to `to`, with 24 random bytes in the
    /// public-key slot of its single input.
    pub fn coinbase_tx(to: &str) -> (r: Result<Self, Error>)
        ensures
            r matches Ok(t) ==> is_coinbase_model(t@) && t@.outputs == seq![
                OutputModel { value: REWARD, public_key_hash: address_key_hash(to@)->0 },
            ] && t@.id == tx_digest(t@.inputs, t@.outputs),
            r is Err <==> address_key_hash(to@) is None,
    {
        Transaction::coinbase_with_data(to, random_bytes())
    }

    /// A copy with the same model.
    pub fn duplicate(&self) -> (r: Self)
        ensures
            r@ == self@,
    {
        let mut inputs: Vec<TxInput> = Vec::new();
        let mut i: usize = 0;
        while i < self.inputs.len()
            invariant
                i <= self.inputs@.len(),
                inputs@.len() == i,
                forall|j: int| 0 <= j < i ==> (#[trigger] inputs@[j])@ == self.inputs@[j]@,
            decreases self.inputs@.len() - i,
        {
            inputs.push(self.inputs[i].duplicate());
            i = i + 1;
        }
        let r = Transaction { id: copy_bytes(&self.id), inputs, outputs: copy_outputs(&self.outputs) };
        assert(r@.inputs =~= self@.inputs);
        r
    }
}

/// Hashing is idempotent: hashing an already hashed transaction again gives
/// the same id, since the id field is cleared before encoding.
pub proof fn hash_is_idempotent(t: TransactionModel)
    ensures
        ({
            let once = TransactionModel { id: tx_digest(t.inputs, t.outputs), ..t };
            let twice = TransactionModel { id: tx_digest(once.inputs, once.outputs), ..once };
            twice == once
        }),
{
}

/// A transaction signed by `sign` passes `verify` against the same previous
/// transactions.
pub proof fn signed_transaction_verifies(
    prev: Seq<TransactionModel>,
    old: TransactionModel,
    new: TransactionModel,
    public_key: Seq<u8>,
)
    requires
        is_coinbase_model(old) ==> new == old,
        !is_coinbase_model(old) ==> signed_from(prev, old, new, public_key),
    ensures
        tx_verifies(prev, new),
{
    if !is_coinbase_model(old) {
        assert forall|k: int| 0 <= k < new.inputs.len() implies input_verifies(prev, new, k) by {
            assert(new.inputs[k].id == old.inputs[k].id);
            assert(spent_key_hash(prev, new.inputs[k]) == spent_key_hash(prev, old.inputs[k]));
            let h = spent_key_hash(prev, old.inputs[k])->0;
            assert(trimmed_inputs(new.inputs) =~= trimmed_inputs(old.inputs));
            assert(signing_inputs(new.inputs, k, h) =~= signing_inputs(old.inputs, k, h));
        }
    }
}

} // verus!
