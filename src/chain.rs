//! The block store: blocks by hash and the best tip, walked from the tip
//! back to genesis.
use crate::block::{nonce_exists, pow_preimage, sealed, tx_root, Block, BlockModel};
use crate::codec::{bytes_equal, copy_bytes};
use crate::error::Error;
use crate::transaction::{
    find_by_id, index_of_id, inputs_resolve, is_coinbase_model, signed_from, tx_verifies, txs_model, Transaction,
    TransactionModel,
};
use crate::crypto::{ecdsa_signature_of, sha256_of};
use crate::transaction::{signing_digest, spent_key_hash};
use crate::wallet::{address_key_hash, Wallet};
use vstd::prelude::*;

verus! {

/// The position of the first block with hash `h`.
pub open spec fn index_of_hash(bs: Seq<BlockModel>, h: Seq<u8>) -> Option<int>
    decreases bs.len(),
{
    if bs.len() == 0 {
        None
    } else {
        match index_of_hash(bs.drop_last(), h) {
            Some(k) => Some(k),
            None => if bs.last().hash == h {
                Some(bs.len() - 1)
            } else {
                None
            },
        }
    }
}

/// The blocks met walking from hash `h` along previous hashes, at most `fuel`
/// of them, ending after a block with an empty previous hash or before a
/// hash that no block has.
pub open spec fn chain_walk(bs: Seq<BlockModel>, h: Seq<u8>, fuel: nat) -> Seq<BlockModel>
    decreases fuel,
{
    if fuel == 0 {
        seq![]
    } else {
        match index_of_hash(bs, h) {
            None => seq![],
            Some(k) => seq![bs[k]] + if bs[k].prevhash.len() == 0 {
                seq![]
            } else {
                chain_walk(bs, bs[k].prevhash, (fuel - 1) as nat)
            },
        }
    }
}

/// The transactions of a list of blocks, block after block.
pub open spec fn blocks_txs(bs: Seq<BlockModel>) -> Seq<TransactionModel>
    decreases bs.len(),
{
    if bs.len() == 0 {
        seq![]
    } else {
        blocks_txs(bs.drop_last()) + bs.last().transactions
    }
}

/// The blocks of a list.
pub open spec fn blocks_model(s: Seq<Block>) -> Seq<BlockModel> {
    s.map_values(|b: Block| b@)
}

/// A found position lies in the list and holds the hash.
pub proof fn lemma_index_of_hash(bs: Seq<BlockModel>, h: Seq<u8>)
    ensures
        index_of_hash(bs, h) matches Some(k) ==> 0 <= k < bs.len() && bs[k].hash == h,
        index_of_hash(bs, h) is None ==> forall|k: int| 0 <= k < bs.len() ==> bs[k].hash != h,
    decreases bs.len(),
{
    if bs.len() > 0 {
        lemma_index_of_hash(bs.drop_last(), h);
        assert forall|k: int| 0 <= k < bs.len() - 1 implies bs[k] == bs.drop_last()[k] by {}
    }
}

proof fn lemma_index_of_hash_prefix(bs: Seq<BlockModel>, h: Seq<u8>, n: int)
    requires
        0 <= n <= bs.len(),
        index_of_hash(bs.subrange(0, n), h) is Some,
    ensures
        index_of_hash(bs, h) == index_of_hash(bs.subrange(0, n), h),
    decreases bs.len(),
{
    if n < bs.len() {
        assert(bs.drop_last().subrange(0, n) =~= bs.subrange(0, n));
        lemma_index_of_hash_prefix(bs.drop_last(), h, n);
    } else {
        assert(bs.subrange(0, n) =~= bs);
    }
}

/// Where hashes are unique, a block holding `h` is the one found.
proof fn lemma_index_of_unique(bs: Seq<BlockModel>, h: Seq<u8>, k: int)
    requires
        0 <= k < bs.len(),
        bs[k].hash == h,
        forall|i: int, j: int| 0 <= i < j < bs.len() ==> bs[i].hash != bs[j].hash,
    ensures
        index_of_hash(bs, h) == Some(k),
{
    lemma_index_of_hash(bs, h);
    if let Some(i) = index_of_hash(bs, h) {
        assert(i == k);
    }
}

/// An append-only store of blocks keyed by hash, with the hash of the best
/// tip.
pub struct BlockChain {
    lasthash: Vec<u8>,
    blocks: Vec<Block>,
}

impl BlockChain {
    /// The stored blocks, in the order they were stored.
    pub closed spec fn blocks_view(&self) -> Seq<BlockModel> {
        blocks_model(self.blocks@)
    }

    /// The hash of the best tip.
    pub closed spec fn lasthash_view(&self) -> Seq<u8> {
        self.lasthash@
    }

    /// The hashes are unique and the tip is stored.
    pub open spec fn wf(&self) -> bool {
        &&& forall|i: int, j: int|
            0 <= i < j < self.blocks_view().len() ==> (#[trigger] self.blocks_view()[i]).hash
                != (#[trigger] self.blocks_view()[j]).hash
        &&& index_of_hash(self.blocks_view(), self.lasthash_view()) is Some
    }

    /// The tip block.
    pub open spec fn tip(&self) -> BlockModel {
        self.blocks_view()[index_of_hash(self.blocks_view(), self.lasthash_view())->0]
    }

    /// The blocks from the tip back to genesis.
    pub open spec fn chain(&self) -> Seq<BlockModel> {
        chain_walk(self.blocks_view(), self.lasthash_view(), self.blocks_view().len())
    }

    /// The transactions of the chain, from the tip back to genesis.
    pub open spec fn chain_txs(&self) -> Seq<TransactionModel> {
        blocks_txs(self.chain())
    }

    /// A chain holding `genesis` alone.
    pub fn from_genesis(genesis: Block) -> (r: Self)
        ensures
            r.wf(),
            r.blocks_view() == seq![genesis@],
            r.lasthash_view() == genesis@.hash,
    {
        let lasthash = copy_bytes(&genesis.hash);
        let blocks = vec![genesis];
        let r = BlockChain { lasthash, blocks };
        assert(r.blocks_view() =~= seq![genesis@]);
        proof {
            lemma_index_of_unique(r.blocks_view(), r.lasthash_view(), 0);
        }
        r
    }

    /// A new chain whose genesis block pays the reward to `address`.
    pub fn init_blockchain(address: &str) -> (r: Result<Self, Error>)
        ensures
            r matches Ok(c) ==> c.wf() && c.blocks_view().len() == 1 && c.lasthash_view() == c.blocks_view()[0].hash
                && c.blocks_view()[0].height == 0 && c.blocks_view()[0].prevhash.len() == 0 && sealed(c.blocks_view()[0])
                && c.blocks_view()[0].transactions.len() == 1 && is_coinbase_model(c.blocks_view()[0].transactions[0])
                && c.blocks_view()[0].transactions[0].outputs == seq![
                    crate::tx::OutputModel { value: crate::transaction::REWARD, public_key_hash: address_key_hash(address@)->0 },
                ],
            address_key_hash(address@) is None ==> r is Err,
            address_key_hash(address@) is Some ==> r is Ok || r == Err::<BlockChain, Error>(Error::Overflow),
    {
        let coinbase = Transaction::coinbase_tx(address)?;
        let genesis = Block::genesis(coinbase)?;
        Ok(BlockChain::from_genesis(genesis))
    }

    /// The chain over stored blocks and a tip hash, as read back from disk:
    /// `Error::Store` where two blocks share a hash, `Error::ChainMissing`
    /// where no block has the tip's hash.
    pub fn continue_blockchain(blocks: Vec<Block>, lasthash: Vec<u8>) -> (r: Result<Self, Error>)
        ensures
            r matches Ok(c) ==> c.wf() && c.blocks_view() == blocks_model(blocks@) && c.lasthash_view() == lasthash@,
            r is Err ==> r == Err::<BlockChain, Error>(Error::Store) || r == Err::<BlockChain, Error>(Error::ChainMissing),
            (forall|a: int, b: int| 0 <= a < b < blocks@.len() ==> (#[trigger] blocks@[a]).hash@ != (#[trigger] blocks@[b]).hash@)
                ==> (r is Ok <==> index_of_hash(blocks_model(blocks@), lasthash@) is Some),
    {
        let ghost bs = blocks_model(blocks@);
        let mut i: usize = 0;
        while i < blocks.len()
            invariant
                bs == blocks_model(blocks@),
                i <= blocks@.len(),
                forall|a: int, b: int| 0 <= a < b < i ==> (#[trigger] bs[a]).hash != (#[trigger] bs[b]).hash,
            decreases blocks@.len() - i,
        {
            let mut j: usize = 0;
            while j < i
                invariant
                    bs == blocks_model(blocks@),
                    i < blocks@.len(),
                    j <= i,
                    forall|a: int, b: int| 0 <= a < b < i ==> (#[trigger] bs[a]).hash != (#[trigger] bs[b]).hash,
                    forall|a: int| 0 <= a < j ==> (#[trigger] bs[a]).hash != bs[i as int].hash,
                decreases i - j,
            {
                if bytes_equal(&blocks[j].hash, &blocks[i].hash) {
                    return Err(Error::Store);
                }
                j = j + 1;
            }
            i = i + 1;
        }
        let c = BlockChain { lasthash, blocks };
        assert(c.blocks_view() == bs);
        match c.find_block(&c.lasthash) {
            Some(_) => Ok(c),
            None => Err(Error::ChainMissing),
        }
    }

    fn find_block(&self, h: &[u8]) -> (r: Option<usize>)
        ensures
            r matches Some(k) ==> index_of_hash(self.blocks_view(), h@) == Some(k as int) && k < self.blocks@.len(),
            r is None ==> index_of_hash(self.blocks_view(), h@) is None,
    {
        let ghost bs = self.blocks_view();
        let mut i: usize = 0;
        while i < self.blocks.len()
            invariant
                bs == self.blocks_view(),
                i <= self.blocks@.len(),
                index_of_hash(bs.subrange(0, i as int), h@) is None,
            decreases self.blocks@.len() - i,
        {
            assert(bs.subrange(0, i + 1).drop_last() =~= bs.subrange(0, i as int));
            if bytes_equal(&self.blocks[i].hash, h) {
                proof {
                    lemma_index_of_hash_prefix(bs, h@, i + 1);
                }
                return Some(i);
            }
            i = i + 1;
        }
        assert(bs.subrange(0, i as int) =~= bs);
        None
    }

    /// The hash of the best tip.
    pub fn last_hash(&self) -> (r: &Vec<u8>)
        ensures
            r@ == self.lasthash_view(),
    {
        &self.lasthash
    }

    /// The stored blocks, in the order they were stored.
    pub fn blocks(&self) -> (r: &Vec<Block>)
        ensures
            blocks_model(r@) == self.blocks_view(),
    {
        &self.blocks
    }

    /// The block with hash `hash`, if stored.
    pub fn get_block(&self, hash: &[u8]) -> (r: Option<Block>)
        ensures
            r matches Some(b) ==> index_of_hash(self.blocks_view(), hash@) matches Some(k) && b@ == self.blocks_view()[k],
            r is None ==> index_of_hash(self.blocks_view(), hash@) is None,
    {
        match self.find_block(hash) {
            Some(k) => Some(self.blocks[k].duplicate()),
            None => None,
        }
    }

    /// The height of the tip block.
    pub fn get_best_height(&self) -> (r: u64)
        requires
            self.wf(),
        ensures
            r == self.tip().height,
    {
        let k = self.find_block(&self.lasthash).unwrap();
        self.blocks[k].height
    }

    /// The stored positions of the chain's blocks, from the tip back.
    fn walk(&self) -> (r: Vec<usize>)
        ensures
            r@.len() == self.chain().len(),
            forall|i: int| 0 <= i < r@.len() ==> (#[trigger] r@[i]) < self.blocks@.len() && self.blocks_view()[r@[i] as int]
                == self.chain()[i],
    {
        let ghost bs = self.blocks_view();
        let ghost full = self.chain();
        let mut r: Vec<usize> = Vec::new();
        let mut cur = copy_bytes(&self.lasthash);
        let mut fuel: usize = self.blocks.len();
        let mut done = false;
        let ghost acc: Seq<BlockModel> = seq![];
        while !done && fuel > 0
            invariant
                bs == self.blocks_view(),
                full == chain_walk(bs, self.lasthash_view(), bs.len()),
                r@.len() == acc.len(),
                forall|i: int| 0 <= i < r@.len() ==> (#[trigger] r@[i]) < self.blocks@.len() && bs[r@[i] as int] == acc[i],
                full == acc + if done {
                    seq![]
                } else {
                    chain_walk(bs, cur@, fuel as nat)
                },
            decreases fuel,
        {
            match self.find_block(&cur) {
                None => {
                    done = true;
                    fuel = 0;
                },
                Some(k) => {
                    proof {
                        lemma_index_of_hash(bs, cur@);
                        acc = acc.push(bs[k as int]);
                    }
                    r.push(k);
                    let b = &self.blocks[k];
                    if b.prevhash.len() == 0 {
                        done = true;
                    } else {
                        cur = copy_bytes(&b.prevhash);
                    }
                    fuel = fuel - 1;
                },
            }
        }
        assert(full =~= acc);
        r
    }

    /// The hashes of the chain's blocks, from the tip back to genesis.
    pub fn get_block_hashes(&self) -> (r: Vec<Vec<u8>>)
        ensures
            r@.len() == self.chain().len(),
            forall|i: int| 0 <= i < r@.len() ==> (#[trigger] r@[i])@ == self.chain()[i].hash,
    {
        let w = self.walk();
        let mut r: Vec<Vec<u8>> = Vec::new();
        let mut i: usize = 0;
        while i < w.len()
            invariant
                w@.len() == self.chain().len(),
                forall|i: int| 0 <= i < w@.len() ==> (#[trigger] w@[i]) < self.blocks@.len() && self.blocks_view()[w@[i] as int]
                    == self.chain()[i],
                i <= w@.len(),
                r@.len() == i,
                forall|j: int| 0 <= j < i ==> (#[trigger] r@[j])@ == self.chain()[j].hash,
            decreases w@.len() - i,
        {
            let k = w[i];
            r.push(copy_bytes(&self.blocks[k].hash));
            i = i + 1;
        }
        r
    }

    /// The transactions of the chain, from the tip back to genesis.
    pub fn chain_transactions(&self) -> (r: Vec<Transaction>)
        ensures
            txs_model(r@) == self.chain_txs(),
    {
        let w = self.walk();
        let ghost ch = self.chain();
        let mut r: Vec<Transaction> = Vec::new();
        let mut i: usize = 0;
        while i < w.len()
            invariant
                ch == self.chain(),
                w@.len() == ch.len(),
                forall|i: int| 0 <= i < w@.len() ==> (#[trigger] w@[i]) < self.blocks@.len() && self.blocks_view()[w@[i] as int]
                    == ch[i],
                i <= w@.len(),
                txs_model(r@) == blocks_txs(ch.subrange(0, i as int)),
            decreases w@.len() - i,
        {
            let b = &self.blocks[w[i]];
            assert(b@ == ch[i as int]);
            let mut j: usize = 0;
            let ghost base = txs_model(r@);
            while j < b.transactions.len()
                invariant
                    i < w@.len(),
                    j <= b.transactions@.len(),
                    txs_model(r@) == base + b@.transactions.subrange(0, j as int),
                decreases b.transactions@.len() - j,
            {
                let ghost r0 = txs_model(r@);
                let t = b.transactions[j].duplicate();
                assert(b@.transactions[j as int] == t@);
                r.push(t);
                assert(txs_model(r@) =~= r0.push(t@));
                j = j + 1;
                assert(txs_model(r@) =~= base + b@.transactions.subrange(0, j as int));
            }
            assert(ch.subrange(0, i + 1).drop_last() =~= ch.subrange(0, i as int));
            assert(b@.transactions.subrange(0, j as int) =~= b@.transactions);
            i = i + 1;
        }
        assert(ch.subrange(0, i as int) =~= ch);
        r
    }

    /// The first transaction of the chain, walking from the tip, whose id is
    /// `id`.
    pub fn find_transaction(&self, id: &[u8]) -> (r: Option<Transaction>)
        ensures
            r matches Some(t) ==> index_of_id(self.chain_txs(), id@) matches Some(k) && t@ == self.chain_txs()[k],
            r is None ==> index_of_id(self.chain_txs(), id@) is None,
    {
        let txs = self.chain_transactions();
        match find_by_id(&txs, id) {
            Some(k) => {
                proof {
                    crate::transaction::lemma_index_of_id(txs_model(txs@), id@);
                }
                Some(txs[k].duplicate())
            },
            None => None,
        }
    }

    /// The previous transactions of `t`'s inputs, as found in the chain.
    fn previous_transactions(&self, t: &Transaction) -> (r: Result<Vec<Transaction>, Error>)
        ensures
            r matches Ok(v) ==> inputs_found(self.chain_txs(), t@) && txs_model(v@) == resolved_prevs(
                self.chain_txs(),
                t@,
            ),
            r is Err ==> !inputs_found(self.chain_txs(), t@) && r == Err::<Vec<Transaction>, Error>(
                Error::TransactionNotFound,
            ),
    {
        let txs = self.chain_transactions();
        let ghost all = self.chain_txs();
        let mut prev: Vec<Transaction> = Vec::new();
        let mut i: usize = 0;
        while i < t.inputs.len()
            invariant
                all == txs_model(txs@),
                all == self.chain_txs(),
                i <= t.inputs@.len(),
                t@.inputs.len() == t.inputs@.len(),
                prev@.len() == i,
                forall|k: int| 0 <= k < i ==> (#[trigger] index_of_id(all, t@.inputs[k].id)) is Some,
                forall|k: int| 0 <= k < i ==> (#[trigger] prev@[k])@ == all[index_of_id(all, t@.inputs[k].id)->0],
            decreases t.inputs@.len() - i,
        {
            assert(t@.inputs[i as int].id == t.inputs@[i as int].id@);
            match find_by_id(&txs, &t.inputs[i].id) {
                Some(k) => {
                    proof {
                        crate::transaction::lemma_index_of_id(all, t@.inputs[i as int].id);
                    }
                    prev.push(txs[k].duplicate());
                },
                None => {
                    assert(index_of_id(txs_model(txs@), t.inputs@[i as int].id@) is None);
                    assert(index_of_id(all, t@.inputs[i as int].id) is None);
                    assert(!inputs_found(all, t@));
                    return Err(Error::TransactionNotFound);
                },
            }
            i = i + 1;
        }
        assert(txs_model(prev@) =~= resolved_prevs(all, t@));
        Ok(prev)
    }

    /// Verifies `t` against the transactions of the chain that its inputs
    /// spend. A coinbase passes.
    pub fn verify_transaction(&self, t: &Transaction) -> (r: Result<(), Error>)
        ensures
            r is Ok <==> chain_verifies(self.chain_txs(), t@),
    {
        if t.is_coinbase() {
            return Ok(());
        }
        let prev = self.previous_transactions(t)?;
        t.verify(&prev)
    }

    /// Signs `t` with `wallet` against the transactions of the chain that its
    /// inputs spend; leaves it as it was on failure.
    pub fn sign_transaction(&self, t: &mut Transaction, wallet: &Wallet) -> (r: Result<(), Error>)
        requires
            wallet.wf(),
        ensures
            r is Err ==> final(t)@ == old(t)@,
            is_coinbase_model(old(t)@) ==> r is Ok && final(t)@ == old(t)@,
            !is_coinbase_model(old(t)@) && inputs_found(self.chain_txs(), old(t)@) && inputs_resolve(
                resolved_prevs(self.chain_txs(), old(t)@),
                old(t)@,
            ) ==> r is Ok,
            r is Ok && !is_coinbase_model(old(t)@) ==> forall|k: int|
                0 <= k < old(t)@.inputs.len() ==> (#[trigger] final(t)@.inputs[k]).signature == ecdsa_signature_of(
                    wallet.secret_view(),
                    signing_digest(
                        old(t)@,
                        k,
                        spent_key_hash(resolved_prevs(self.chain_txs(), old(t)@), old(t)@.inputs[k])->0,
                    ),
                ),
            r is Ok && !is_coinbase_model(old(t)@) ==> inputs_found(self.chain_txs(), old(t)@) && signed_from(
                resolved_prevs(self.chain_txs(), old(t)@),
                old(t)@,
                final(t)@,
                wallet.public_view(),
            ),
    {
        if t.is_coinbase() {
            return Ok(());
        }
        let prev = self.previous_transactions(t)?;
        t.sign(wallet, &prev)
    }

    fn insert_block(&mut self, block: Block, make_tip: bool)
        requires
            old(self).wf(),
            index_of_hash(old(self).blocks_view(), block@.hash) is None,
        ensures
            final(self).wf(),
            final(self).blocks_view() == old(self).blocks_view().push(block@),
            make_tip ==> final(self).lasthash_view() == block@.hash,
            !make_tip ==> final(self).lasthash_view() == old(self).lasthash_view(),
            !make_tip ==> final(self).tip() == old(self).tip(),
    {
        let ghost bs = self.blocks_view();
        let ghost x = block@;
        proof {
            lemma_index_of_hash(bs, x.hash);
            lemma_index_of_hash(bs, self.lasthash@);
        }
        if make_tip {
            self.lasthash = copy_bytes(&block.hash);
        }
        self.blocks.push(block);
        assert(self.blocks_view() =~= bs.push(x));
        assert(self.blocks_view().drop_last() =~= bs);
        if make_tip {
            proof {
                lemma_index_of_unique(self.blocks_view(), x.hash, bs.len() as int);
            }
        }
    }

    /// Stores a block received from a peer. A block whose hash is already
    /// stored changes nothing; otherwise the block is stored, and becomes the
    /// tip exactly when it stands higher than the current tip.
    pub fn add_block(&mut self, block: &Block) -> (r: Result<(), Error>)
        requires
            old(self).wf(),
        ensures
            r is Ok,
            final(self).wf(),
            index_of_hash(old(self).blocks_view(), block@.hash) is Some ==> final(self).blocks_view()
                == old(self).blocks_view() && final(self).lasthash_view() == old(self).lasthash_view(),
            index_of_hash(old(self).blocks_view(), block@.hash) is None ==> final(self).blocks_view()
                == old(self).blocks_view().push(block@),
            index_of_hash(old(self).blocks_view(), block@.hash) is None && block.height > old(self).tip().height
                ==> final(self).lasthash_view() == block@.hash,
            index_of_hash(old(self).blocks_view(), block@.hash) is None && block.height <= old(self).tip().height
                ==> final(self).lasthash_view() == old(self).lasthash_view(),
    {
        if self.find_block(&block.hash).is_some() {
            return Ok(());
        }
        let best = self.get_best_height();
        self.insert_block(block.duplicate(), block.height > best);
        Ok(())
    }

    /// Verifies every transaction, seals them in a block one above the tip,
    /// stores it and makes it the tip. Leaves the chain as it was on failure.
    pub fn mine_block(&mut self, transactions: Vec<Transaction>) -> (r: Result<Block, Error>)
        requires
            old(self).wf(),
        ensures
            final(self).wf(),
            r is Err ==> final(self).blocks_view() == old(self).blocks_view() && final(self).lasthash_view()
                == old(self).lasthash_view(),
            r matches Ok(b) ==> {
                &&& b@.transactions == txs_model(transactions@)
                &&& b@.prevhash == old(self).lasthash_view()
                &&& b.height == old(self).tip().height + 1
                &&& sealed(b@)
                &&& final(self).blocks_view() == old(self).blocks_view().push(b@)
                &&& final(self).lasthash_view() == b@.hash
                &&& forall|k: int| 0 <= k < transactions@.len() ==> chain_verifies(old(self).chain_txs(), #[trigger] transactions@[k]@)
            },
            (exists|k: int| 0 <= k < transactions@.len() && !chain_verifies(old(self).chain_txs(), #[trigger] transactions@[k]@))
                ==> r is Err,
            ({
                let root = tx_root(txs_model(transactions@));
                &&& forall|k: int| 0 <= k < transactions@.len() ==> chain_verifies(old(self).chain_txs(), #[trigger] transactions@[k]@)
                &&& transactions@.len() > 0
                &&& old(self).tip().height < u64::MAX
                &&& nonce_exists(old(self).lasthash_view(), root)
                &&& forall|n: u64| index_of_hash(old(self).blocks_view(), #[trigger] sha256_of(pow_preimage(old(self).lasthash_view(), root, n))) is None
            }) ==> r is Ok,
            (forall|k: int| 0 <= k < transactions@.len() ==> chain_verifies(old(self).chain_txs(), #[trigger] transactions@[k]@))
                && transactions@.len() > 0 ==> r is Ok || r == Err::<Block, Error>(Error::Overflow) || r == Err::<Block, Error>(
                Error::Store,
            ),
    {
        let mut i: usize = 0;
        while i < transactions.len()
            invariant
                i <= transactions@.len(),
                *self == *old(self),
                self.wf(),
                forall|k: int| 0 <= k < i ==> chain_verifies(self.chain_txs(), #[trigger] transactions@[k]@),
            decreases transactions@.len() - i,
        {
            self.verify_transaction(&transactions[i])?;
            i = i + 1;
        }
        let best = self.get_best_height();
        if best == u64::MAX {
            return Err(Error::Overflow);
        }
        let block = Block::create_block(transactions, copy_bytes(&self.lasthash), best + 1)?;
        assert(block@.hash == sha256_of(pow_preimage(self.lasthash_view(), tx_root(block@.transactions), block.nonce)));
        if self.find_block(&block.hash).is_some() {
            return Err(Error::Store);
        }
        let r = block.duplicate();
        self.insert_block(block, true);
        Ok(r)
    }
}

/// A walk over the chain from a block back along previous hashes.
pub struct BlockChainIterator {
    pub current_hash: Vec<u8>,
}

impl BlockChain {
    /// A walk that starts at the tip.
    pub fn iterator(&self) -> (r: BlockChainIterator)
        ensures
            r.current_hash@ == self.lasthash_view(),
    {
        BlockChainIterator { current_hash: copy_bytes(&self.lasthash) }
    }
}

impl BlockChainIterator {
    /// The block at the current hash, the walk moving on to its previous
    /// hash; `None`, the walk staying, where `chain` has no such block (past
    /// genesis, whose previous hash is empty).
    pub fn next(&mut self, chain: &BlockChain) -> (r: Option<Block>)
        ensures
            r matches Some(b) ==> index_of_hash(chain.blocks_view(), old(self).current_hash@) matches Some(k)
                && b@ == chain.blocks_view()[k] && final(self).current_hash@ == b@.prevhash,
            r is None ==> index_of_hash(chain.blocks_view(), old(self).current_hash@) is None && final(self).current_hash
                == old(self).current_hash,
    {
        match chain.get_block(&self.current_hash) {
            Some(b) => {
                self.current_hash = copy_bytes(&b.prevhash);
                Some(b)
            },
            None => None,
        }
    }
}

/// Every input of `t` names a transaction of `txs`.
pub open spec fn inputs_found(txs: Seq<TransactionModel>, t: TransactionModel) -> bool {
    forall|k: int| 0 <= k < t.inputs.len() ==> (#[trigger] index_of_id(txs, t.inputs[k].id)) is Some
}

/// The transactions of `txs` that `t`'s inputs name, input by input.
pub open spec fn resolved_prevs(txs: Seq<TransactionModel>, t: TransactionModel) -> Seq<TransactionModel> {
    t.inputs.map_values(|i: crate::tx::InputModel| txs[index_of_id(txs, i.id)->0])
}

/// `t` is a coinbase, or its inputs name transactions of `txs` and its
/// signatures verify against them.
pub open spec fn chain_verifies(txs: Seq<TransactionModel>, t: TransactionModel) -> bool {
    is_coinbase_model(t) || (inputs_found(txs, t) && tx_verifies(resolved_prevs(txs, t), t))
}

} // verus!
