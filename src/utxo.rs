//! The unspent-output index: for each transaction of the chain, the list of
//! its outputs that no input spends, rebuilt from the chain or updated block
//! by block.
use crate::block::Block;
use crate::chain::{chain_verifies, inputs_found, resolved_prevs, BlockChain};
use crate::codec::{bytes_equal, copy_bytes};
use crate::error::Error;
use crate::transaction::{
    find_by_id, index_of_id, is_coinbase_model, lemma_index_of_id, lemma_index_of_prefix, txs_model, Transaction,
    TransactionModel,
};
use crate::tx::{copy_outputs, outputs_model, InputModel, OutputModel, TxOutput, TxOutputs};
use crate::wallet::{address_check, address_key_hash, public_key_hash_from_address, Wallets};
use vstd::prelude::*;

verus! {

/// The (transaction id, output index) pairs that a transaction's inputs
/// spend; none for a coinbase.
pub open spec fn tx_spends(t: TransactionModel) -> Seq<(Seq<u8>, i64)> {
    if is_coinbase_model(t) {
        seq![]
    } else {
        t.inputs.map_values(|i: InputModel| (i.id, i.out))
    }
}

/// The pairs spent by a list of transactions.
pub open spec fn txs_spends(ts: Seq<TransactionModel>) -> Seq<(Seq<u8>, i64)>
    decreases ts.len(),
{
    if ts.len() == 0 {
        seq![]
    } else {
        txs_spends(ts.drop_last()) + tx_spends(ts.last())
    }
}

/// The outputs among the first `n` of `t` that are not spent.
pub open spec fn unspent_upto(t: TransactionModel, spent: Seq<(Seq<u8>, i64)>, n: int) -> Seq<OutputModel>
    decreases n,
{
    if n <= 0 {
        seq![]
    } else {
        unspent_upto(t, spent, n - 1) + if n - 1 <= i64::MAX && spent.contains((t.id, (n - 1) as i64)) {
            seq![]
        } else {
            seq![t.outputs[n - 1]]
        }
    }
}

/// The entries of the index for a list of transactions: each transaction
/// with a non-empty id and at least one unspent output, with those outputs in
/// order; of transactions sharing an id, only the first counts.
pub open spec fn utxo_entries(ts: Seq<TransactionModel>, spent: Seq<(Seq<u8>, i64)>) -> Seq<(Seq<u8>, Seq<OutputModel>)>
    decreases ts.len(),
{
    if ts.len() == 0 {
        seq![]
    } else {
        let t = ts.last();
        let u = unspent_upto(t, spent, t.outputs.len() as int);
        utxo_entries(ts.drop_last(), spent) + if u.len() > 0 && t.id.len() > 0 && index_of_id(ts, t.id) == Some(
            ts.len() - 1,
        ) {
            seq![(t.id, u)]
        } else {
            seq![]
        }
    }
}

/// The index that a chain's transactions determine: every output that no
/// input of the chain spends.
pub open spec fn chain_utxo(ts: Seq<TransactionModel>) -> Seq<(Seq<u8>, Seq<OutputModel>)> {
    utxo_entries(ts, txs_spends(ts))
}

/// The model of stored entries.
pub open spec fn entries_model(s: Seq<(Vec<u8>, TxOutputs)>) -> Seq<(Seq<u8>, Seq<OutputModel>)> {
    s.map_values(|e: (Vec<u8>, TxOutputs)| (e.0@, e.1@))
}

/// The model of spent pairs.
pub open spec fn pairs_model(s: Seq<(Vec<u8>, i64)>) -> Seq<(Seq<u8>, i64)> {
    s.map_values(|p: (Vec<u8>, i64)| (p.0@, p.1))
}

/// Whether (`id`, `out`) is among the spent pairs.
fn is_spent(spent: &Vec<(Vec<u8>, i64)>, id: &[u8], out: i64) -> (r: bool)
    ensures
        r == pairs_model(spent@).contains((id@, out)),
{
    let mut i: usize = 0;
    while i < spent.len()
        invariant
            i <= spent@.len(),
            forall|k: int| 0 <= k < i ==> (#[trigger] pairs_model(spent@)[k]) != (id@, out),
        decreases spent@.len() - i,
    {
        if spent[i].1 == out && bytes_equal(&spent[i].0, id) {
            assert(pairs_model(spent@)[i as int] == (id@, out));
            return true;
        }
        i = i + 1;
    }
    false
}

/// The pairs spent by `txs`.
fn collect_spends(txs: &Vec<Transaction>) -> (r: Vec<(Vec<u8>, i64)>)
    ensures
        pairs_model(r@) == txs_spends(txs_model(txs@)),
{
    let ghost ts = txs_model(txs@);
    let mut r: Vec<(Vec<u8>, i64)> = Vec::new();
    let mut i: usize = 0;
    while i < txs.len()
        invariant
            ts == txs_model(txs@),
            i <= txs@.len(),
            pairs_model(r@) == txs_spends(ts.subrange(0, i as int)),
        decreases txs@.len() - i,
    {
        let t = &txs[i];
        assert(ts[i as int] == t@);
        let ghost base = pairs_model(r@);
        if !t.is_coinbase() {
            let mut j: usize = 0;
            while j < t.inputs.len()
                invariant
                    i < txs@.len(),
                    !is_coinbase_model(t@),
                    j <= t.inputs@.len(),
                    pairs_model(r@) == base + tx_spends(t@).subrange(0, j as int),
                decreases t.inputs@.len() - j,
            {
                let ghost r0 = pairs_model(r@);
                let p = (copy_bytes(&t.inputs[j].id), t.inputs[j].out);
                r.push(p);
                assert(pairs_model(r@) =~= r0.push((t@.inputs[j as int].id, t@.inputs[j as int].out)));
                j = j + 1;
                assert(pairs_model(r@) =~= base + tx_spends(t@).subrange(0, j as int));
            }
            assert(tx_spends(t@).subrange(0, j as int) =~= tx_spends(t@));
        } else {
            assert(pairs_model(r@) =~= base + tx_spends(t@));
        }
        assert(ts.subrange(0, i + 1).drop_last() =~= ts.subrange(0, i as int));
        i = i + 1;
    }
    assert(ts.subrange(0, i as int) =~= ts);
    r
}

/// The unspent outputs of `t`.
fn unspent_outputs(t: &Transaction, spent: &Vec<(Vec<u8>, i64)>) -> (r: Vec<TxOutput>)
    ensures
        outputs_model(r@) == unspent_upto(t@, pairs_model(spent@), t@.outputs.len() as int),
{
    let ghost sp = pairs_model(spent@);
    let mut r: Vec<TxOutput> = Vec::new();
    let mut k: usize = 0;
    while k < t.outputs.len()
        invariant
            sp == pairs_model(spent@),
            k <= t.outputs@.len(),
            t@.outputs.len() == t.outputs@.len(),
            outputs_model(r@) == unspent_upto(t@, sp, k as int),
        decreases t.outputs@.len() - k,
    {
        let ghost r0 = outputs_model(r@);
        if (k as u64) <= (i64::MAX as u64) && is_spent(spent, &t.id, k as i64) {
        } else {
            let o = t.outputs[k].duplicate();
            r.push(o);
            assert(outputs_model(r@) =~= r0.push(t@.outputs[k as int]));
        }
        k = k + 1;
        assert(outputs_model(r@) =~= unspent_upto(t@, sp, k as int));
    }
    r
}

/// `ts[i]` is the first of its id in `ts` exactly when it is in the prefix
/// up to it.
proof fn lemma_first_occurrence(ts: Seq<TransactionModel>, id: Seq<u8>, i: int)
    requires
        0 <= i < ts.len(),
        ts[i].id == id,
    ensures
        (index_of_id(ts, id) == Some(i)) == (index_of_id(ts.subrange(0, i + 1), id) == Some(i)),
{
    lemma_index_of_id(ts.subrange(0, i + 1), id);
    assert(ts.subrange(0, i + 1)[i] == ts[i]);
    if let Some(k) = index_of_id(ts.subrange(0, i + 1), id) {
        lemma_index_of_prefix(ts, id, i + 1);
    }
}

proof fn lemma_unspent_len(t: TransactionModel, spent: Seq<(Seq<u8>, i64)>, n: int)
    requires
        0 <= n,
    ensures
        unspent_upto(t, spent, n).len() <= n,
    decreases n,
{
    if n > 0 {
        lemma_unspent_len(t, spent, n - 1);
    }
}

/// Each entry of the index is filed under the non-empty id of a transaction
/// that is the first of that id, holds no more outputs than it, and no two
/// entries share an id.
pub proof fn lemma_utxo_entries(ts: Seq<TransactionModel>, spent: Seq<(Seq<u8>, i64)>)
    ensures
        forall|p: int| 0 <= p < utxo_entries(ts, spent).len() ==> exists|j: int|
            0 <= j < ts.len() && index_of_id(ts, #[trigger] utxo_entries(ts, spent)[p].0) == Some(j)
                && utxo_entries(ts, spent)[p].0 == ts[j].id && utxo_entries(ts, spent)[p].1.len() <= ts[j].outputs.len()
                && utxo_entries(ts, spent)[p].0.len() > 0,
        keys_unique(utxo_entries(ts, spent)),
    decreases ts.len(),
{
    if ts.len() > 0 {
        let pre = ts.drop_last();
        lemma_utxo_entries(pre, spent);
        let e0 = utxo_entries(pre, spent);
        let e = utxo_entries(ts, spent);
        let t = ts.last();
        lemma_unspent_len(t, spent, t.outputs.len() as int);
        lemma_index_of_id(pre, t.id);
        assert forall|p: int| 0 <= p < e.len() implies exists|j: int|
            0 <= j < ts.len() && index_of_id(ts, #[trigger] e[p].0) == Some(j) && e[p].0 == ts[j].id && e[p].1.len()
                <= ts[j].outputs.len() && e[p].0.len() > 0 by {
            if p < e0.len() {
                assert(e[p] == e0[p]);
                let j = choose|j: int|
                    0 <= j < pre.len() && index_of_id(pre, #[trigger] e0[p].0) == Some(j) && e0[p].0 == pre[j].id
                        && e0[p].1.len() <= pre[j].outputs.len() && e0[p].0.len() > 0;
                assert(ts[j] == pre[j]);
            } else {
                assert(e[p].0 == t.id);
                assert(ts[ts.len() - 1] == t);
            }
        }
        assert forall|a: int, b: int| 0 <= a < b < e.len() implies (#[trigger] e[a]).0 != (#[trigger] e[b]).0 by {
            if b < e0.len() {
                assert(e[a] == e0[a] && e[b] == e0[b]);
            } else {
                assert(e[a] == e0[a]);
                let j = choose|j: int|
                    0 <= j < pre.len() && index_of_id(pre, #[trigger] e0[a].0) == Some(j) && e0[a].0 == pre[j].id
                        && e0[a].1.len() <= pre[j].outputs.len() && e0[a].0.len() > 0;
                assert(pre[j].id != t.id);
            }
        }
    }
}

/// No two entries share a transaction id.
pub open spec fn keys_unique(es: Seq<(Seq<u8>, Seq<OutputModel>)>) -> bool {
    forall|a: int, b: int| 0 <= a < b < es.len() ==> (#[trigger] es[a]).0 != (#[trigger] es[b]).0
}

impl BlockChain {
    /// Every output of the chain that no input of the chain spends, grouped
    /// by transaction, walking from the tip back to genesis.
    pub fn find_all_utxo(&self) -> (r: Vec<(Vec<u8>, TxOutputs)>)
        ensures
            entries_model(r@) == chain_utxo(self.chain_txs()),
    {
        let txs = self.chain_transactions();
        let ghost ts = txs_model(txs@);
        let spent = collect_spends(&txs);
        proof {
            lemma_utxo_entries(ts, txs_spends(ts));
        }
        let ghost sp = pairs_model(spent@);
        let mut r: Vec<(Vec<u8>, TxOutputs)> = Vec::new();
        let mut i: usize = 0;
        while i < txs.len()
            invariant
                ts == txs_model(txs@),
                sp == pairs_model(spent@),
                sp == txs_spends(ts),
                i <= txs@.len(),
                entries_model(r@) == utxo_entries(ts.subrange(0, i as int), sp),
            decreases txs@.len() - i,
        {
            let t = &txs[i];
            assert(ts[i as int] == t@);
            let ghost r0 = entries_model(r@);
            let outs = unspent_outputs(t, &spent);
            assert(ts.subrange(0, i + 1).drop_last() =~= ts.subrange(0, i as int));
            let first = match find_by_id(&txs, &t.id) {
                Some(k) => k == i,
                None => false,
            };
            proof {
                lemma_first_occurrence(ts, t@.id, i as int);
            }
            if outs.len() > 0 && t.id.len() > 0 && first {
                let e = (copy_bytes(&t.id), TxOutputs { outputs: outs });
                r.push(e);
                assert(entries_model(r@) =~= r0.push((t@.id, unspent_upto(t@, sp, t@.outputs.len() as int))));
            } else {
                assert(entries_model(r@) =~= utxo_entries(ts.subrange(0, i + 1), sp));
            }
            i = i + 1;
        }
        assert(ts.subrange(0, i as int) =~= ts);
        r
    }
}

/// The value of the outputs locked to `key_hash`.
pub open spec fn owned_value(outs: Seq<OutputModel>, key_hash: Seq<u8>) -> nat
    decreases outs.len(),
{
    if outs.len() == 0 {
        0
    } else {
        owned_value(outs.drop_last(), key_hash) + if outs.last().public_key_hash == key_hash {
            outs.last().value as nat
        } else {
            0
        }
    }
}

/// The value, over all entries, of the outputs locked to `key_hash`.
pub open spec fn balance_of(es: Seq<(Seq<u8>, Seq<OutputModel>)>, key_hash: Seq<u8>) -> nat
    decreases es.len(),
{
    if es.len() == 0 {
        0
    } else {
        balance_of(es.drop_last(), key_hash) + owned_value(es.last().1, key_hash)
    }
}

/// The (transaction id, position, value) of each of the first `n` outputs of
/// an entry that is locked to `key_hash`.
pub open spec fn owned_refs_upto(id: Seq<u8>, outs: Seq<OutputModel>, key_hash: Seq<u8>, n: int) -> Seq<(Seq<u8>, int, u64)>
    decreases n,
{
    if n <= 0 {
        seq![]
    } else {
        owned_refs_upto(id, outs, key_hash, n - 1) + if outs[n - 1].public_key_hash == key_hash {
            seq![(id, n - 1, outs[n - 1].value)]
        } else {
            seq![]
        }
    }
}

/// The outputs of all entries that are locked to `key_hash`, in order.
pub open spec fn owned_refs(es: Seq<(Seq<u8>, Seq<OutputModel>)>, key_hash: Seq<u8>) -> Seq<(Seq<u8>, int, u64)>
    decreases es.len(),
{
    if es.len() == 0 {
        seq![]
    } else {
        owned_refs(es.drop_last(), key_hash) + owned_refs_upto(es.last().0, es.last().1, key_hash, es.last().1.len() as int)
    }
}

/// Taking outputs in order while their sum stays below `amount`: the sum
/// reached and the (transaction id, position) of the outputs taken.
pub open spec fn greedy_pick(refs: Seq<(Seq<u8>, int, u64)>, amount: u64) -> (nat, Seq<(Seq<u8>, int)>)
    decreases refs.len(),
{
    if refs.len() == 0 {
        (0, seq![])
    } else {
        let (acc, picks) = greedy_pick(refs.drop_last(), amount);
        if acc < amount {
            (acc + refs.last().2 as nat, picks.push((refs.last().0, refs.last().1)))
        } else {
            (acc, picks)
        }
    }
}

/// Some entry holds more outputs than a 64-bit signed index can name.
pub open spec fn oversized(es: Seq<(Seq<u8>, Seq<OutputModel>)>) -> bool {
    exists|i: int| 0 <= i < es.len() && (#[trigger] es[i]).1.len() > i64::MAX
}

/// The model of picked outputs.
pub open spec fn picks_model(s: Seq<(Vec<u8>, i64)>) -> Seq<(Seq<u8>, int)> {
    s.map_values(|p: (Vec<u8>, i64)| (p.0@, p.1 as int))
}

proof fn lemma_balance_prefix(es: Seq<(Seq<u8>, Seq<OutputModel>)>, key_hash: Seq<u8>, n: int)
    requires
        0 <= n <= es.len(),
    ensures
        balance_of(es.subrange(0, n), key_hash) <= balance_of(es, key_hash),
    decreases es.len(),
{
    if n < es.len() {
        assert(es.drop_last().subrange(0, n) =~= es.subrange(0, n));
        lemma_balance_prefix(es.drop_last(), key_hash, n);
    } else {
        assert(es.subrange(0, n) =~= es);
    }
}

proof fn lemma_owned_prefix(outs: Seq<OutputModel>, key_hash: Seq<u8>, n: int)
    requires
        0 <= n <= outs.len(),
    ensures
        owned_value(outs.subrange(0, n), key_hash) <= owned_value(outs, key_hash),
    decreases outs.len(),
{
    if n < outs.len() {
        assert(outs.drop_last().subrange(0, n) =~= outs.subrange(0, n));
        lemma_owned_prefix(outs.drop_last(), key_hash, n);
    } else {
        assert(outs.subrange(0, n) =~= outs);
    }
}

proof fn lemma_greedy_prefix(s: Seq<(Seq<u8>, int, u64)>, amount: u64, n: int)
    requires
        0 <= n <= s.len(),
    ensures
        greedy_pick(s.subrange(0, n), amount).0 <= greedy_pick(s, amount).0,
    decreases s.len(),
{
    if n < s.len() {
        assert(s.drop_last().subrange(0, n) =~= s.subrange(0, n));
        lemma_greedy_prefix(s.drop_last(), amount, n);
    } else {
        assert(s.subrange(0, n) =~= s);
    }
}

proof fn lemma_owned_refs_upto_prefix(id: Seq<u8>, outs: Seq<OutputModel>, key_hash: Seq<u8>, m: int, n: int)
    requires
        0 <= m <= n,
    ensures
        owned_refs_upto(id, outs, key_hash, n).len() >= owned_refs_upto(id, outs, key_hash, m).len(),
        owned_refs_upto(id, outs, key_hash, n).subrange(0, owned_refs_upto(id, outs, key_hash, m).len() as int)
            == owned_refs_upto(id, outs, key_hash, m),
    decreases n,
{
    if m < n {
        lemma_owned_refs_upto_prefix(id, outs, key_hash, m, n - 1);
        let a = owned_refs_upto(id, outs, key_hash, m);
        let b = owned_refs_upto(id, outs, key_hash, n - 1);
        assert(owned_refs_upto(id, outs, key_hash, n).subrange(0, a.len() as int) =~= b.subrange(0, a.len() as int));
    } else {
        let a = owned_refs_upto(id, outs, key_hash, m);
        assert(a.subrange(0, a.len() as int) =~= a);
    }
}

proof fn lemma_owned_refs_prefix(es: Seq<(Seq<u8>, Seq<OutputModel>)>, key_hash: Seq<u8>, n: int)
    requires
        0 <= n <= es.len(),
    ensures
        owned_refs(es, key_hash).len() >= owned_refs(es.subrange(0, n), key_hash).len(),
        owned_refs(es, key_hash).subrange(0, owned_refs(es.subrange(0, n), key_hash).len() as int) == owned_refs(
            es.subrange(0, n),
            key_hash,
        ),
    decreases es.len(),
{
    let a = owned_refs(es.subrange(0, n), key_hash);
    if n < es.len() {
        assert(es.drop_last().subrange(0, n) =~= es.subrange(0, n));
        lemma_owned_refs_prefix(es.drop_last(), key_hash, n);
        let b = owned_refs(es.drop_last(), key_hash);
        assert(owned_refs(es, key_hash).subrange(0, a.len() as int) =~= b.subrange(0, a.len() as int));
    } else {
        assert(es.subrange(0, n) =~= es);
        assert(a.subrange(0, a.len() as int) =~= a);
    }
}

/// Every output picked names a position inside an entry.
proof fn lemma_picks_in_entries(es: Seq<(Seq<u8>, Seq<OutputModel>)>, key_hash: Seq<u8>, amount: u64)
    ensures
        forall|q: int| 0 <= q < greedy_pick(owned_refs(es, key_hash), amount).1.len() ==> exists|p: int|
            0 <= p < es.len() && (#[trigger] greedy_pick(owned_refs(es, key_hash), amount).1[q]).0 == es[p].0 && 0
                <= greedy_pick(owned_refs(es, key_hash), amount).1[q].1 < es[p].1.len(),
{
    lemma_owned_refs_in_entries(es, key_hash);
    lemma_greedy_from_refs(owned_refs(es, key_hash), amount);
    let refs = owned_refs(es, key_hash);
    let picks = greedy_pick(refs, amount).1;
    assert forall|q: int| 0 <= q < picks.len() implies exists|p: int|
        0 <= p < es.len() && (#[trigger] picks[q]).0 == es[p].0 && 0 <= picks[q].1 < es[p].1.len() by {
        let x = choose|x: int| 0 <= x < refs.len() && picks[q] == (#[trigger] refs[x].0, refs[x].1);
        let p = choose|p: int| 0 <= p < es.len() && (#[trigger] refs[x]).0 == es[p].0 && 0 <= refs[x].1 < es[p].1.len();
    }
}

proof fn lemma_owned_refs_upto_in(id: Seq<u8>, outs: Seq<OutputModel>, key_hash: Seq<u8>, n: int)
    requires
        0 <= n <= outs.len(),
    ensures
        forall|x: int| 0 <= x < owned_refs_upto(id, outs, key_hash, n).len() ==> (#[trigger] owned_refs_upto(id, outs, key_hash, n)[x]).0
            == id && 0 <= owned_refs_upto(id, outs, key_hash, n)[x].1 < outs.len(),
    decreases n,
{
    if n > 0 {
        lemma_owned_refs_upto_in(id, outs, key_hash, n - 1);
        let a = owned_refs_upto(id, outs, key_hash, n - 1);
        let b = owned_refs_upto(id, outs, key_hash, n);
        assert forall|x: int| 0 <= x < b.len() implies (#[trigger] b[x]).0 == id && 0 <= b[x].1 < outs.len() by {
            if x < a.len() {
                assert(b[x] == a[x]);
            }
        }
    }
}

proof fn lemma_owned_refs_in_entries(es: Seq<(Seq<u8>, Seq<OutputModel>)>, key_hash: Seq<u8>)
    ensures
        forall|x: int| 0 <= x < owned_refs(es, key_hash).len() ==> exists|p: int|
            0 <= p < es.len() && (#[trigger] owned_refs(es, key_hash)[x]).0 == es[p].0 && 0 <= owned_refs(es, key_hash)[x].1
                < es[p].1.len(),
    decreases es.len(),
{
    if es.len() > 0 {
        let pre = es.drop_last();
        lemma_owned_refs_in_entries(pre, key_hash);
        let last = es.last();
        lemma_owned_refs_upto_in(last.0, last.1, key_hash, last.1.len() as int);
        let a = owned_refs(pre, key_hash);
        let b = owned_refs_upto(last.0, last.1, key_hash, last.1.len() as int);
        let all = owned_refs(es, key_hash);
        assert(all == a + b);
        assert forall|x: int| 0 <= x < all.len() implies exists|p: int|
            0 <= p < es.len() && (#[trigger] all[x]).0 == es[p].0 && 0 <= all[x].1 < es[p].1.len() by {
            if x < a.len() {
                assert(all[x] == a[x]);
                let p = choose|p: int| 0 <= p < pre.len() && (#[trigger] a[x]).0 == pre[p].0 && 0 <= a[x].1 < pre[p].1.len();
                assert(es[p] == pre[p]);
            } else {
                assert(all[x] == b[x - a.len()]);
                assert(es[es.len() - 1] == last);
            }
        }
    }
}

proof fn lemma_greedy_from_refs(refs: Seq<(Seq<u8>, int, u64)>, amount: u64)
    ensures
        forall|q: int| 0 <= q < greedy_pick(refs, amount).1.len() ==> exists|x: int|
            0 <= x < refs.len() && #[trigger] greedy_pick(refs, amount).1[q] == (#[trigger] refs[x].0, refs[x].1),
    decreases refs.len(),
{
    if refs.len() > 0 {
        let pre = refs.drop_last();
        lemma_greedy_from_refs(pre, amount);
        let picks = greedy_pick(refs, amount).1;
        let p0 = greedy_pick(pre, amount).1;
        assert forall|q: int| 0 <= q < picks.len() implies exists|x: int|
            0 <= x < refs.len() && #[trigger] picks[q] == (#[trigger] refs[x].0, refs[x].1) by {
            if q < p0.len() {
                assert(picks[q] == p0[q]);
                let x = choose|x: int| 0 <= x < pre.len() && #[trigger] p0[q] == (#[trigger] pre[x].0, pre[x].1);
                assert(refs[x] == pre[x]);
            } else {
                assert(picks[q] == (refs.last().0, refs.last().1));
                assert(refs[refs.len() - 1] == refs.last());
            }
        }
    }
}

/// The transactions that inputs name resolve again to the same ones.
proof fn lemma_resolved(ts: Seq<TransactionModel>, t: TransactionModel, k: int)
    requires
        0 <= k < t.inputs.len(),
        inputs_found(ts, t),
    ensures
        index_of_id(resolved_prevs(ts, t), t.inputs[k].id) matches Some(m) && resolved_prevs(ts, t)[m]
            == ts[index_of_id(ts, t.inputs[k].id)->0],
{
    let prevs = resolved_prevs(ts, t);
    let id = t.inputs[k].id;
    assert forall|i: int| 0 <= i < t.inputs.len() implies (#[trigger] prevs[i]).id == t.inputs[i].id by {
        lemma_index_of_id(ts, t.inputs[i].id);
    }
    lemma_index_of_id(prevs, id);
    assert(prevs[k].id == id);
    let m = index_of_id(prevs, id)->0;
    lemma_index_of_id(ts, id);
}

/// No two references name the same (transaction id, position).
pub open spec fn refs_distinct(refs: Seq<(Seq<u8>, int, u64)>) -> bool {
    forall|x: int, y: int| 0 <= x < y < refs.len() ==> ((#[trigger] refs[x]).0, refs[x].1) != ((#[trigger] refs[y]).0, refs[y].1)
}

proof fn lemma_upto_increasing(id: Seq<u8>, outs: Seq<OutputModel>, key_hash: Seq<u8>, n: int)
    requires
        0 <= n <= outs.len(),
    ensures
        forall|x: int, y: int| 0 <= x < y < owned_refs_upto(id, outs, key_hash, n).len() ==> (#[trigger] owned_refs_upto(id, outs, key_hash, n)[x]).1
            < (#[trigger] owned_refs_upto(id, outs, key_hash, n)[y]).1,
        forall|x: int| 0 <= x < owned_refs_upto(id, outs, key_hash, n).len() ==> (#[trigger] owned_refs_upto(id, outs, key_hash, n)[x]).1 < n,
    decreases n,
{
    if n > 0 {
        lemma_upto_increasing(id, outs, key_hash, n - 1);
        let a = owned_refs_upto(id, outs, key_hash, n - 1);
        let b = owned_refs_upto(id, outs, key_hash, n);
        assert forall|x: int| 0 <= x < b.len() implies (#[trigger] b[x]).1 < n by {
            if x < a.len() {
                assert(b[x] == a[x]);
            }
        }
        assert forall|x: int, y: int| 0 <= x < y < b.len() implies (#[trigger] b[x]).1 < (#[trigger] b[y]).1 by {
            assert(b[x] == a[x]);
            if y < a.len() {
                assert(b[y] == a[y]);
            }
        }
    }
}

proof fn lemma_owned_refs_distinct(es: Seq<(Seq<u8>, Seq<OutputModel>)>, key_hash: Seq<u8>)
    requires
        keys_unique(es),
    ensures
        refs_distinct(owned_refs(es, key_hash)),
    decreases es.len(),
{
    if es.len() > 0 {
        let pre = es.drop_last();
        assert(keys_unique(pre)) by {
            assert forall|a: int, b: int| 0 <= a < b < pre.len() implies (#[trigger] pre[a]).0 != (#[trigger] pre[b]).0 by {
                assert(pre[a] == es[a] && pre[b] == es[b]);
            }
        }
        lemma_owned_refs_distinct(pre, key_hash);
        lemma_owned_refs_in_entries(pre, key_hash);
        let last = es.last();
        lemma_owned_refs_upto_in(last.0, last.1, key_hash, last.1.len() as int);
        lemma_upto_increasing(last.0, last.1, key_hash, last.1.len() as int);
        let a = owned_refs(pre, key_hash);
        let b = owned_refs_upto(last.0, last.1, key_hash, last.1.len() as int);
        let all = owned_refs(es, key_hash);
        assert(all == a + b);
        assert forall|x: int, y: int| 0 <= x < y < all.len() implies ((#[trigger] all[x]).0, all[x].1) != ((#[trigger] all[y]).0, all[y].1) by {
            if y < a.len() {
                assert(all[x] == a[x] && all[y] == a[y]);
            } else if x >= a.len() {
                assert(all[x] == b[x - a.len()] && all[y] == b[y - a.len()]);
            } else {
                assert(all[x] == a[x] && all[y] == b[y - a.len()]);
                let p = choose|p: int| 0 <= p < pre.len() && (#[trigger] a[x]).0 == pre[p].0 && 0 <= a[x].1 < pre[p].1.len();
                assert(es[p] == pre[p]);
                assert(es[es.len() - 1] == last);
            }
        }
    }
}

proof fn lemma_greedy_distinct(refs: Seq<(Seq<u8>, int, u64)>, amount: u64)
    requires
        refs_distinct(refs),
    ensures
        forall|a: int, b: int| 0 <= a < b < greedy_pick(refs, amount).1.len() ==> (#[trigger] greedy_pick(refs, amount).1[a])
            != (#[trigger] greedy_pick(refs, amount).1[b]),
    decreases refs.len(),
{
    if refs.len() > 0 {
        let pre = refs.drop_last();
        assert(refs_distinct(pre)) by {
            assert forall|x: int, y: int| 0 <= x < y < pre.len() implies ((#[trigger] pre[x]).0, pre[x].1) != ((#[trigger] pre[y]).0, pre[y].1) by {
                assert(pre[x] == refs[x] && pre[y] == refs[y]);
            }
        }
        lemma_greedy_distinct(pre, amount);
        lemma_greedy_from_refs(pre, amount);
        let p0 = greedy_pick(pre, amount).1;
        let picks = greedy_pick(refs, amount).1;
        assert forall|a: int, b: int| 0 <= a < b < picks.len() implies (#[trigger] picks[a]) != (#[trigger] picks[b]) by {
            if b < p0.len() {
                assert(picks[a] == p0[a] && picks[b] == p0[b]);
            } else {
                assert(picks[a] == p0[a]);
                let x = choose|x: int| 0 <= x < pre.len() && #[trigger] p0[a] == (#[trigger] pre[x].0, pre[x].1);
                assert(pre[x] == refs[x]);
                assert(refs[refs.len() - 1] == refs.last());
            }
        }
    }
}

/// The unspent outputs of a chain, indexed by transaction id.
pub struct UTXOSet {
    pub chain: BlockChain,
    pub entries: Vec<(Vec<u8>, TxOutputs)>,
}

impl UTXOSet {
    /// The entries: transaction id and its unspent outputs.
    pub open spec fn entries_view(&self) -> Seq<(Seq<u8>, Seq<OutputModel>)> {
        entries_model(self.entries@)
    }

    /// The index is the one the chain determines, and the chain is well
    /// formed; its keys are then unique.
    pub open spec fn wf(&self) -> bool {
        &&& self.chain.wf()
        &&& self.entries_view() == chain_utxo(self.chain.chain_txs())
    }

    /// The index of `chain`, built from it.
    pub fn new(chain: BlockChain) -> (r: Self)
        requires
            chain.wf(),
        ensures
            r.chain == chain,
            r.wf(),
    {
        let mut r = UTXOSet { chain, entries: Vec::new() };
        r.reindex();
        r
    }

    /// The entries.
    pub fn entries(&self) -> (r: &Vec<(Vec<u8>, TxOutputs)>)
        ensures
            entries_model(r@) == self.entries_view(),
    {
        &self.entries
    }

    /// Rebuilds the index from the chain.
    pub fn reindex(&mut self)
        ensures
            final(self).chain == old(self).chain,
            final(self).entries_view() == chain_utxo(old(self).chain.chain_txs()),
            old(self).chain.wf() ==> final(self).wf(),
    {
        self.entries = self.chain.find_all_utxo();
    }

    /// The number of entries.
    pub fn count_transaction(&self) -> (r: usize)
        ensures
            r == self.entries_view().len(),
    {
        self.entries.len()
    }

    /// The value of the unspent outputs locked to the public-key hash that
    /// `address` names; `Error::Overflow` where it exceeds 64 bits.
    pub fn get_balance(&self, address: &str) -> (r: Result<u64, Error>)
        ensures
            r matches Ok(v) ==> address_key_hash(address@) matches Some(h) && v as nat == balance_of(self.entries_view(), h),
            address_key_hash(address@) is None ==> r is Err,
            address_key_hash(address@) is Some && balance_of(self.entries_view(), address_key_hash(address@)->0) <= u64::MAX
                ==> r == Ok::<u64, Error>(balance_of(self.entries_view(), address_key_hash(address@)->0) as u64),
            r == Err::<u64, Error>(Error::Overflow) <==> (address_key_hash(address@) matches Some(h) && balance_of(
                self.entries_view(),
                h,
            ) > u64::MAX),
    {
        let h = public_key_hash_from_address(address)?;
        let ghost es = self.entries_view();
        let mut balance: u64 = 0;
        let mut i: usize = 0;
        while i < self.entries.len()
            invariant
                es == self.entries_view(),
                address_key_hash(address@) == Some(h@),
                i <= es.len(),
                balance as nat == balance_of(es.subrange(0, i as int), h@),
            decreases es.len() - i,
        {
            let outs = &self.entries[i].1.outputs;
            let ghost os = es[i as int].1;
            assert(os == outputs_model(outs@));
            let mut k: usize = 0;
            let ghost base = balance as nat;
            while k < outs.len()
                invariant
                    i < es.len(),
                    es == self.entries_view(),
                    address_key_hash(address@) == Some(h@),
                    os == es[i as int].1,
                    os == outputs_model(outs@),
                    k <= os.len(),
                    base == balance_of(es.subrange(0, i as int), h@),
                    balance as nat == base + owned_value(os.subrange(0, k as int), h@),
                decreases os.len() - k,
            {
                assert(os.subrange(0, k + 1).drop_last() =~= os.subrange(0, k as int));
                if bytes_equal(&outs[k].public_key_hash, &h) {
                    if balance > u64::MAX - outs[k].value {
                        proof {
                            assert(os.subrange(0, k + 1).last() == os[k as int]);
                            assert(os[k as int].public_key_hash == h@);
                            assert(owned_value(os.subrange(0, k + 1), h@) == owned_value(os.subrange(0, k as int), h@)
                                + os[k as int].value);
                            lemma_owned_prefix(os, h@, k + 1);
                            assert(es.subrange(0, i + 1).drop_last() =~= es.subrange(0, i as int));
                            assert(es.subrange(0, i + 1).last() == es[i as int]);
                            assert(balance_of(es.subrange(0, i + 1), h@) == base + owned_value(os, h@));
                            lemma_balance_prefix(es, h@, i + 1);
                        }
                        return Err(Error::Overflow);
                    }
                    balance = balance + outs[k].value;
                }
                k = k + 1;
            }
            assert(os.subrange(0, k as int) =~= os);
            assert(es.subrange(0, i + 1).drop_last() =~= es.subrange(0, i as int));
            i = i + 1;
        }
        assert(es.subrange(0, i as int) =~= es);
        Ok(balance)
    }

    /// Takes outputs locked to the public-key hash that `address` names, in
    /// index order, while their sum stays below `amount`; returns the sum and
    /// the (transaction id, position) of each output taken.
    pub fn find_address_unspent_outputs(&self, address: &str, amount: u64) -> (r: Result<(u64, Vec<(Vec<u8>, i64)>), Error>)
        ensures
            r matches Ok((acc, picks)) ==> address_key_hash(address@) matches Some(h) && greedy_pick(
                owned_refs(self.entries_view(), h),
                amount,
            ) == (acc as nat, picks_model(picks@)),
            address_key_hash(address@) is None ==> r is Err,
            keys_unique(self.entries_view()) && r is Ok ==> forall|a: int, b: int|
                0 <= a < b < r->Ok_0.1@.len() ==> (#[trigger] picks_model(r->Ok_0.1@)[a]) != (#[trigger] picks_model(
                    r->Ok_0.1@,
                )[b]),
            address_key_hash(address@) is Some && r is Err ==> greedy_pick(
                owned_refs(self.entries_view(), address_key_hash(address@)->0),
                amount,
            ).0 > u64::MAX || oversized(self.entries_view()),
    {
        let h = public_key_hash_from_address(address)?;
        let ghost es = self.entries_view();
        let mut acc: u64 = 0;
        let mut picks: Vec<(Vec<u8>, i64)> = Vec::new();
        let mut i: usize = 0;
        while i < self.entries.len()
            invariant
                es == self.entries_view(),
                address_key_hash(address@) == Some(h@),
                i <= es.len(),
                greedy_pick(owned_refs(es.subrange(0, i as int), h@), amount) == (acc as nat, picks_model(picks@)),
            decreases es.len() - i,
        {
            let id = &self.entries[i].0;
            let outs = &self.entries[i].1.outputs;
            let ghost os = es[i as int].1;
            assert(os == outputs_model(outs@));
            assert(es[i as int].0 == id@);
            let ghost base = owned_refs(es.subrange(0, i as int), h@);
            let mut k: usize = 0;
            while k < outs.len()
                invariant
                    i < es.len(),
                    es == self.entries_view(),
                    address_key_hash(address@) == Some(h@),
                    os == es[i as int].1,
                    base == owned_refs(es.subrange(0, i as int), h@),
                    os == outputs_model(outs@),
                    es[i as int].0 == id@,
                    k <= os.len(),
                    greedy_pick(base + owned_refs_upto(id@, os, h@, k as int), amount) == (acc as nat, picks_model(picks@)),
                decreases os.len() - k,
            {
                let ghost prefix = base + owned_refs_upto(id@, os, h@, k as int);
                if bytes_equal(&outs[k].public_key_hash, &h) {
                    assert((base + owned_refs_upto(id@, os, h@, k + 1)).drop_last() =~= prefix);
                    if acc < amount {
                        if acc > u64::MAX - outs[k].value {
                            proof {
                                let ext = base + owned_refs_upto(id@, os, h@, k + 1);
                                assert(greedy_pick(ext, amount).0 > u64::MAX);
                                lemma_owned_refs_upto_prefix(id@, os, h@, k + 1, os.len() as int);
                                let whole_i = owned_refs(es.subrange(0, i + 1), h@);
                                assert(es.subrange(0, i + 1).drop_last() =~= es.subrange(0, i as int));
                                assert(whole_i == base + owned_refs_upto(id@, os, h@, os.len() as int));
                                assert(whole_i.subrange(0, ext.len() as int) =~= ext);
                                lemma_owned_refs_prefix(es, h@, i + 1);
                                let all = owned_refs(es, h@);
                                assert(all.subrange(0, ext.len() as int) =~= ext);
                                lemma_greedy_prefix(all, amount, ext.len() as int);
                            }
                            return Err(Error::Overflow);
                        }
                        if k as u64 > i64::MAX as u64 {
                            assert(es[i as int].1.len() > i64::MAX);
                            return Err(Error::Overflow);
                        }
                        acc = acc + outs[k].value;
                        let ghost p0 = picks_model(picks@);
                        picks.push((copy_bytes(id), k as i64));
                        assert(picks_model(picks@) =~= p0.push((id@, k as int)));
                    }
                } else {
                    assert(base + owned_refs_upto(id@, os, h@, k + 1) =~= prefix);
                }
                k = k + 1;
            }
            assert(owned_refs(es.subrange(0, i + 1), h@) =~= base + owned_refs_upto(id@, os, h@, k as int)) by {
                assert(es.subrange(0, i + 1).drop_last() =~= es.subrange(0, i as int));
            }
            i = i + 1;
        }
        assert(es.subrange(0, i as int) =~= es);
        proof {
            if keys_unique(es) {
                lemma_owned_refs_distinct(es, h@);
                lemma_greedy_distinct(owned_refs(es, h@), amount);
                let gp = greedy_pick(owned_refs(es, h@), amount).1;
                assert(picks_model(picks@) == gp);
                assert forall|a: int, b: int| 0 <= a < b < picks@.len() implies (#[trigger] picks_model(picks@)[a])
                    != (#[trigger] picks_model(picks@)[b]) by {
                    assert(gp[a] != gp[b]);
                }
            }
        }
        Ok((acc, picks))
    }

    /// Brings the index up to date with the chain after `block` became its
    /// tip: the index is then the one the extended chain determines, as
    /// `reindex` builds it. Fails with `Error::BlockNotFound`, changing
    /// nothing, where `block` is not the chain's tip.
    pub fn update(&mut self, block: &Block) -> (r: Result<(), Error>)
        requires
            old(self).chain.wf(),
        ensures
            final(self).chain == old(self).chain,
            block@.hash == old(self).chain.lasthash_view() ==> r is Ok && final(self).wf(),
            block@.hash == old(self).chain.lasthash_view() ==> final(self).entries_view() == chain_utxo(
                old(self).chain.chain_txs(),
            ),
            block@.hash != old(self).chain.lasthash_view() ==> r == Err::<(), Error>(Error::BlockNotFound)
                && final(self).entries_view() == old(self).entries_view(),
    {
        if !bytes_equal(&block.hash, self.chain.last_hash()) {
            return Err(Error::BlockNotFound);
        }
        self.reindex();
        Ok(())
    }
}

/// The outputs of a payment of `amount` out of `accumulated`: the amount to
/// the payee, then the change, if any, back to the payer.
pub open spec fn payment_outputs(amount: u64, accumulated: nat, to_hash: Seq<u8>, from_hash: Seq<u8>) -> Seq<OutputModel> {
    let pay = OutputModel { value: amount, public_key_hash: to_hash };
    if accumulated > amount {
        seq![pay, OutputModel { value: (accumulated - amount) as u64, public_key_hash: from_hash }]
    } else {
        seq![pay]
    }
}

impl Transaction {
    /// A signed payment of `amount` from `from` to `to`: it spends outputs
    /// locked to `from`, taken in index order until they cover the amount,
    /// pays the amount to `to` and the change back to `from`.
    /// `Error::InsufficientFunds` where `from`'s outputs do not cover it.
    pub fn new(wallets: &Wallets, from: &str, to: &str, amount: u64, utxo_set: &UTXOSet) -> (r: Result<Transaction, Error>)
        requires
            wallets.wf(),
            utxo_set.wf(),
        ensures
            ({
                let fh = address_key_hash(from@)->0;
                let g = greedy_pick(owned_refs(utxo_set.entries_view(), fh), amount);
                &&& address_check(from@) == Some(true)
                &&& address_key_hash(from@) is Some
                &&& address_key_hash(to@) is Some
                &&& wallets.address_set().contains(from@)
                &&& !oversized(utxo_set.entries_view())
                &&& amount <= g.0 <= u64::MAX
            }) ==> r is Ok,
            r matches Ok(t) ==> {
                let fh = address_key_hash(from@)->0;
                let g = greedy_pick(owned_refs(utxo_set.entries_view(), fh), amount);
                &&& address_key_hash(from@) is Some
                &&& address_key_hash(to@) is Some
                &&& wallets.address_set().contains(from@)
                &&& g.0 >= amount
                &&& t@.outputs == payment_outputs(amount, g.0, address_key_hash(to@)->0, fh)
                &&& t@.inputs.len() == g.1.len()
                &&& forall|k: int| 0 <= k < t@.inputs.len() ==> (#[trigger] t@.inputs[k]).id == g.1[k].0
                    && t@.inputs[k].out as int == g.1[k].1
                &&& forall|a: int, b: int| 0 <= a < b < g.1.len() ==> (#[trigger] g.1[a]) != (#[trigger] g.1[b])
                &&& chain_verifies(utxo_set.chain.chain_txs(), t@)
            },
            ({
                let g = greedy_pick(owned_refs(utxo_set.entries_view(), address_key_hash(from@)->0), amount);
                &&& address_check(from@) == Some(true)
                &&& address_key_hash(from@) is Some
                &&& wallets.address_set().contains(from@)
                &&& !oversized(utxo_set.entries_view())
                &&& g.0 < amount
            }) ==> r == Err::<Transaction, Error>(Error::InsufficientFunds),
    {
        let wallet = wallets.get_wallet(from)?;
        proof {
            lemma_utxo_entries(utxo_set.chain.chain_txs(), txs_spends(utxo_set.chain.chain_txs()));
        }
        let (accumulated, picks) = utxo_set.find_address_unspent_outputs(from, amount)?;
        if accumulated < amount {
            return Err(Error::InsufficientFunds);
        }
        let from_hash = public_key_hash_from_address(from)?;
        let ghost g = greedy_pick(owned_refs(utxo_set.entries_view(), from_hash@), amount);
        let mut inputs: Vec<crate::tx::TxInput> = Vec::new();
        let mut i: usize = 0;
        while i < picks.len()
            invariant
                i <= picks@.len(),
                inputs@.len() == i,
                forall|k: int| 0 <= k < i ==> (#[trigger] inputs@[k])@.id == picks@[k].0@ && inputs@[k].out == picks@[k].1,
            decreases picks@.len() - i,
        {
            inputs.push(crate::tx::TxInput::with_key_hash(copy_bytes(&picks[i].0), picks[i].1, Vec::new(), copy_bytes(&from_hash)));
            i = i + 1;
        }
        let mut outputs: Vec<TxOutput> = Vec::new();
        outputs.push(TxOutput::new(amount, to)?);
        if accumulated > amount {
            outputs.push(TxOutput::new(accumulated - amount, from)?);
        }
        let mut tx = Transaction { id: Vec::new(), inputs, outputs };
        assert(tx@.outputs =~= payment_outputs(amount, accumulated as nat, address_key_hash(to@)->0, from_hash@));
        tx.hash();
        let ghost unsigned = tx@;
        assert forall|k: int| 0 <= k < unsigned.inputs.len() implies (#[trigger] unsigned.inputs[k]).id == g.1[k].0
            && unsigned.inputs[k].out as int == g.1[k].1 by {
            assert(picks_model(picks@)[k] == (picks@[k].0@, picks@[k].1 as int));
        }
        proof {
            let ts = utxo_set.chain.chain_txs();
            let es = utxo_set.entries_view();
            lemma_picks_in_entries(es, from_hash@, amount);
            lemma_utxo_entries(ts, txs_spends(ts));
            assert forall|k: int| 0 <= k < unsigned.inputs.len() implies {
                &&& (#[trigger] index_of_id(ts, unsigned.inputs[k].id)) is Some
                &&& unsigned.inputs[k].id.len() > 0
                &&& 0 <= unsigned.inputs[k].out < ts[index_of_id(ts, unsigned.inputs[k].id)->0].outputs.len()
            } by {
                assert(g.1[k] == greedy_pick(owned_refs(es, from_hash@), amount).1[k]);
                let p = choose|p: int| 0 <= p < es.len() && (#[trigger] g.1[k]).0 == es[p].0 && 0 <= g.1[k].1 < es[p].1.len();
                let j = choose|j: int|
                    0 <= j < ts.len() && index_of_id(ts, #[trigger] utxo_entries(ts, txs_spends(ts))[p].0) == Some(j)
                        && utxo_entries(ts, txs_spends(ts))[p].0 == ts[j].id && utxo_entries(ts, txs_spends(ts))[p].1.len()
                        <= ts[j].outputs.len() && utxo_entries(ts, txs_spends(ts))[p].0.len() > 0;
            }
            assert(inputs_found(ts, unsigned));
            assert forall|k: int| 0 <= k < unsigned.inputs.len() implies (#[trigger] crate::transaction::spent_key_hash(
                resolved_prevs(ts, unsigned),
                unsigned.inputs[k],
            )) is Some by {
                lemma_resolved(ts, unsigned, k);
            }
            assert(crate::transaction::inputs_resolve(resolved_prevs(ts, unsigned), unsigned));
        }
        utxo_set.chain.sign_transaction(&mut tx, wallet)?;
        proof {
            let ts = utxo_set.chain.chain_txs();
            if !is_coinbase_model(unsigned) {
                let prevs = resolved_prevs(ts, unsigned);
                crate::transaction::signed_transaction_verifies(prevs, unsigned, tx@, wallet.public_view());
                assert(resolved_prevs(ts, tx@) =~= prevs);
                assert(inputs_found(ts, tx@));
            }
        }
        Ok(tx)
    }
}

/// Pays `amount` from `from` to `to` and mines the payment at once: a block
/// of a fresh coinbase to `from` and the payment goes on the tip, and the
/// index is updated with it.
pub fn send_coin_mined(utxo: &mut UTXOSet, wallets: &Wallets, from: &str, to: &str, amount: u64) -> (r: Result<Block, Error>)
    requires
        old(utxo).wf(),
        wallets.wf(),
    ensures
        final(utxo).chain.wf(),
        r matches Ok(b) ==> {
            &&& final(utxo).chain.blocks_view() == old(utxo).chain.blocks_view().push(b@)
            &&& final(utxo).chain.lasthash_view() == b@.hash
            &&& b.height == old(utxo).chain.tip().height + 1
            &&& b@.transactions.len() == 2
            &&& is_coinbase_model(b@.transactions[0])
            &&& b@.transactions[0].outputs == seq![
                OutputModel { value: crate::transaction::REWARD, public_key_hash: address_key_hash(from@)->0 },
            ]
            &&& b@.transactions[1].outputs == payment_outputs(
                amount,
                greedy_pick(owned_refs(old(utxo).entries_view(), address_key_hash(from@)->0), amount).0,
                address_key_hash(to@)->0,
                address_key_hash(from@)->0,
            )
            &&& final(utxo).wf()
            &&& final(utxo).entries_view() == chain_utxo(final(utxo).chain.chain_txs())
        },
        r is Err ==> final(utxo).chain.blocks_view() == old(utxo).chain.blocks_view() && final(utxo).chain.lasthash_view()
            == old(utxo).chain.lasthash_view() && final(utxo).entries_view() == old(utxo).entries_view(),
        ({
            let g = greedy_pick(owned_refs(old(utxo).entries_view(), address_key_hash(from@)->0), amount);
            &&& address_check(from@) == Some(true)
            &&& address_key_hash(from@) is Some
            &&& wallets.address_set().contains(from@)
            &&& !oversized(old(utxo).entries_view())
            &&& g.0 < amount
        }) ==> r == Err::<Block, Error>(Error::InsufficientFunds) && final(utxo).chain == old(utxo).chain
            && final(utxo).entries_view() == old(utxo).entries_view(),
        ({
            let fh = address_key_hash(from@)->0;
            let g = greedy_pick(owned_refs(old(utxo).entries_view(), fh), amount);
            &&& address_check(from@) == Some(true)
            &&& address_key_hash(from@) is Some
            &&& address_key_hash(to@) is Some
            &&& wallets.address_set().contains(from@)
            &&& !oversized(old(utxo).entries_view())
            &&& amount <= g.0 <= u64::MAX
        }) ==> r is Ok || r == Err::<Block, Error>(Error::Overflow) || r == Err::<Block, Error>(Error::Store),
{
    let tx = Transaction::new(wallets, from, to, amount, utxo)?;
    let coinbase = Transaction::coinbase_tx(from)?;
    let txs = vec![coinbase, tx];
    let block = utxo.chain.mine_block(txs)?;
    let b = block.duplicate();
    let updated = utxo.update(&block);
    assert(updated is Ok);
    Ok(b)
}

} // verus!
