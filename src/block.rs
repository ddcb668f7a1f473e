//! Blocks and their proof of work.
use crate::codec::{copy_bytes, put_raw, put_u64_be, u64_be};
use crate::crypto::{be_value, below_power_of_two, sha256, sha256_of};
use crate::error::Error;
use crate::merkle::{bytes_model, merkle_root, MerkleTree};
use crate::transaction::{enc_tx, txs_model, Transaction, TransactionModel};
use vstd::arithmetic::power2::pow2;
use vstd::prelude::*;

verus! {

/// The number of leading zero bits that a block digest must have.
pub const DIFFICULTY: u64 = 12;

/// Transactions chained to a previous block by its hash, sealed by a nonce.
#[derive(Debug, Clone)]
pub struct Block {
    pub transactions: Vec<Transaction>,
    pub prevhash: Vec<u8>,
    pub hash: Vec<u8>,
    pub nonce: u64,
    pub height: u64,
    pub timestamp: u64,
}

/// What a block is.
pub struct BlockModel {
    pub transactions: Seq<TransactionModel>,
    pub prevhash: Seq<u8>,
    pub hash: Seq<u8>,
    pub nonce: u64,
    pub height: u64,
    pub timestamp: u64,
}

impl View for Block {
    type V = BlockModel;

    open spec fn view(&self) -> BlockModel {
        BlockModel {
            transactions: txs_model(self.transactions@),
            prevhash: self.prevhash@,
            hash: self.hash@,
            nonce: self.nonce,
            height: self.height,
            timestamp: self.timestamp,
        }
    }
}

/// The Merkle root over the encodings of the transactions.
pub open spec fn tx_root(txs: Seq<TransactionModel>) -> Seq<u8> {
    merkle_root(txs.map_values(|t: TransactionModel| enc_tx(t)))
}

/// The bytes that proof of work hashes: previous hash, Merkle root, nonce and
/// difficulty, the last two as 8 big-endian bytes.
pub open spec fn pow_preimage(prevhash: Seq<u8>, root: Seq<u8>, nonce: u64) -> Seq<u8> {
    prevhash + root + u64_be(nonce) + u64_be(DIFFICULTY)
}

/// A digest read as a big-endian integer lies below 2^(256 - difficulty).
pub open spec fn meets_target(digest: Seq<u8>) -> bool {
    be_value(digest) < pow2((256 - DIFFICULTY) as nat)
}

/// The proof-of-work digest of a block for its own nonce.
pub open spec fn pow_digest(b: BlockModel) -> Seq<u8> {
    sha256_of(pow_preimage(b.prevhash, tx_root(b.transactions), b.nonce))
}

/// The block's hash is its 32-byte proof-of-work digest for the least nonce
/// that meets the target.
pub open spec fn sealed(b: BlockModel) -> bool {
    &&& b.hash == pow_digest(b)
    &&& meets_target(b.hash)
    &&& b.hash.len() == 32
    &&& least_nonce(b.prevhash, tx_root(b.transactions), b.nonce)
}

/// No nonce below `n` meets the target.
pub open spec fn least_nonce(prevhash: Seq<u8>, root: Seq<u8>, n: u64) -> bool {
    forall|m: u64| m < n ==> !meets_target(#[trigger] sha256_of(pow_preimage(prevhash, root, m)))
}

/// Some 64-bit nonce meets the target.
pub open spec fn nonce_exists(prevhash: Seq<u8>, root: Seq<u8>) -> bool {
    exists|n: u64| meets_target(#[trigger] sha256_of(pow_preimage(prevhash, root, n)))
}

/// Proof of work over a previous hash and a Merkle root.
pub struct ProofOfWork {
    prevhash: Vec<u8>,
    root: Vec<u8>,
}

impl ProofOfWork {
    pub closed spec fn prevhash_view(&self) -> Seq<u8> {
        self.prevhash@
    }

    pub closed spec fn root_view(&self) -> Seq<u8> {
        self.root@
    }

    /// The proof of work of `block`; `Error::EmptyData` where it has no
    /// transactions.
    pub fn new_proof(block: &Block) -> (r: Result<Self, Error>)
        ensures
            r matches Ok(p) ==> p.prevhash_view() == block@.prevhash && p.root_view() == tx_root(block@.transactions),
            r is Err <==> block@.transactions.len() == 0,
            r is Err ==> r == Err::<ProofOfWork, Error>(Error::EmptyData),
    {
        let root = block.hash_transactions()?;
        Ok(ProofOfWork { prevhash: copy_bytes(&block.prevhash), root })
    }

    /// The preimage for `nonce`.
    pub fn init_data(&self, nonce: u64) -> (r: Vec<u8>)
        ensures
            r@ == pow_preimage(self.prevhash_view(), self.root_view(), nonce),
    {
        let mut data: Vec<u8> = Vec::new();
        put_raw(&mut data, &self.prevhash);
        put_raw(&mut data, &self.root);
        put_u64_be(&mut data, nonce);
        put_u64_be(&mut data, DIFFICULTY);
        assert(data@ =~= pow_preimage(self.prevhash_view(), self.root_view(), nonce));
        data
    }

    /// The least nonce whose digest meets the target, with that digest;
    /// `Error::Overflow` where no 64-bit nonce does.
    pub fn run(&self) -> (r: Result<(u64, Vec<u8>), Error>)
        ensures
            r matches Ok((n, h)) ==> h@ == sha256_of(pow_preimage(self.prevhash_view(), self.root_view(), n))
                && h@.len() == 32 && meets_target(h@) && forall|m: u64| m < n ==> !meets_target(
                #[trigger] sha256_of(pow_preimage(self.prevhash_view(), self.root_view(), m)),
            ),
            r is Err ==> r == Err::<(u64, Vec<u8>), Error>(Error::Overflow),
            r is Err ==> forall|m: u64| !meets_target(
                #[trigger] sha256_of(pow_preimage(self.prevhash_view(), self.root_view(), m)),
            ),
    {
        let mut nonce: u64 = 0;
        loop
            invariant
                forall|m: u64| m < nonce ==> !meets_target(
                    #[trigger] sha256_of(pow_preimage(self.prevhash_view(), self.root_view(), m)),
                ),
            decreases u64::MAX - nonce,
        {
            let digest = sha256(&self.init_data(nonce));
            if below_power_of_two(&digest, 256 - DIFFICULTY) {
                return Ok((nonce, digest));
            }
            if nonce == u64::MAX {
                return Err(Error::Overflow);
            }
            nonce = nonce + 1;
        }
    }

    /// Whether the digest for `nonce` meets the target.
    pub fn validate(&self, nonce: u64) -> (r: bool)
        ensures
            r == meets_target(sha256_of(pow_preimage(self.prevhash_view(), self.root_view(), nonce))),
    {
        let digest = sha256(&self.init_data(nonce));
        below_power_of_two(&digest, 256 - DIFFICULTY)
    }
}

/// Relies on `std::time::SystemTime::now`: the seconds since the Unix epoch,
/// 0 if the clock stands before it.
#[verifier::external_body]
fn unix_seconds() -> (r: u64) {
    std::time::SystemTime::now().duration_since(std::time::UNIX_EPOCH).map(|d| d.as_secs()).unwrap_or(0)
}

impl Block {
    /// The Merkle root over the encodings of the transactions;
    /// `Error::EmptyData` where there are none.
    pub fn hash_transactions(&self) -> (r: Result<Vec<u8>, Error>)
        ensures
            r matches Ok(h) ==> h@ == tx_root(self@.transactions),
            r is Err <==> self@.transactions.len() == 0,
            r is Err ==> r == Err::<Vec<u8>, Error>(Error::EmptyData),
    {
        let mut datas: Vec<Vec<u8>> = Vec::new();
        let mut i: usize = 0;
        while i < self.transactions.len()
            invariant
                i <= self.transactions@.len(),
                datas@.len() == i,
                forall|j: int| 0 <= j < i ==> (#[trigger] datas@[j])@ == enc_tx(self.transactions@[j]@),
            decreases self.transactions@.len() - i,
        {
            datas.push(self.transactions[i].serialize());
            i = i + 1;
        }
        assert(bytes_model(datas@) =~= self@.transactions.map_values(|t: TransactionModel| enc_tx(t)));
        let tree = MerkleTree::new(datas)?;
        Ok(tree.root_hash())
    }

    /// A block at `height` after `prevhash`, stamped `timestamp`, sealed with
    /// the least nonce that meets the target.
    pub fn create_block_at(transactions: Vec<Transaction>, prevhash: Vec<u8>, height: u64, timestamp: u64) -> (r:
        Result<Self, Error>)
        ensures
            r matches Ok(b) ==> b@.transactions == txs_model(transactions@) && b@.prevhash == prevhash@
                && b.height == height && b.timestamp == timestamp && sealed(b@)
                && forall|m: u64| m < b.nonce ==> !meets_target(
                #[trigger] sha256_of(pow_preimage(prevhash@, tx_root(b@.transactions), m)),
            ),
            transactions@.len() == 0 ==> r == Err::<Block, Error>(Error::EmptyData),
            transactions@.len() > 0 && r is Err ==> r == Err::<Block, Error>(Error::Overflow),
            transactions@.len() > 0 && nonce_exists(prevhash@, tx_root(txs_model(transactions@))) ==> r is Ok,
    {
        let mut block = Block { transactions, prevhash, hash: Vec::new(), nonce: 0, height, timestamp };
        let pow = ProofOfWork::new_proof(&block)?;
        let (nonce, hash) = pow.run()?;
        block.nonce = nonce;
        block.hash = hash;
        Ok(block)
    }

    /// A block at `height` after `prevhash`, stamped with the current time.
    pub fn create_block(transactions: Vec<Transaction>, prevhash: Vec<u8>, height: u64) -> (r: Result<Self, Error>)
        ensures
            r matches Ok(b) ==> b@.transactions == txs_model(transactions@) && b@.prevhash == prevhash@
                && b.height == height && sealed(b@),
            transactions@.len() == 0 ==> r == Err::<Block, Error>(Error::EmptyData),
            transactions@.len() > 0 && r is Err ==> r == Err::<Block, Error>(Error::Overflow),
            transactions@.len() > 0 && nonce_exists(prevhash@, tx_root(txs_model(transactions@))) ==> r is Ok,
    {
        Block::create_block_at(transactions, prevhash, height, unix_seconds())
    }

    /// The first block of a chain: the coinbase alone, at height 0, with an
    /// empty previous hash.
    pub fn genesis(coinbase: Transaction) -> (r: Result<Self, Error>)
        ensures
            r matches Ok(b) ==> b@.transactions == seq![coinbase@] && b@.prevhash.len() == 0 && b.height == 0
                && sealed(b@),
            r is Err ==> r == Err::<Block, Error>(Error::Overflow),
            nonce_exists(seq![], tx_root(seq![coinbase@])) ==> r is Ok,
    {
        let txs = vec![coinbase];
        assert(txs_model(txs@) =~= seq![coinbase@]);
        Block::create_block(txs, Vec::new(), 0)
    }

    /// Whether the block's nonce meets the target.
    pub fn validate(&self) -> (r: Result<bool, Error>)
        ensures
            r matches Ok(v) ==> v == meets_target(pow_digest(self@)),
            r is Err <==> self@.transactions.len() == 0,
    {
        let pow = ProofOfWork::new_proof(self)?;
        Ok(pow.validate(self.nonce))
    }

    /// A copy with the same model.
    pub fn duplicate(&self) -> (r: Self)
        ensures
            r@ == self@,
    {
        let mut txs: Vec<Transaction> = Vec::new();
        let mut i: usize = 0;
        while i < self.transactions.len()
            invariant
                i <= self.transactions@.len(),
                txs@.len() == i,
                forall|j: int| 0 <= j < i ==> (#[trigger] txs@[j])@ == self.transactions@[j]@,
            decreases self.transactions@.len() - i,
        {
            txs.push(self.transactions[i].duplicate());
            i = i + 1;
        }
        let r = Block {
            transactions: txs,
            prevhash: copy_bytes(&self.prevhash),
            hash: copy_bytes(&self.hash),
            nonce: self.nonce,
            height: self.height,
            timestamp: self.timestamp,
        };
        assert(r@.transactions =~= self@.transactions);
        r
    }
}

/// A block that `create_block` returns passes `validate`: its digest, read as
/// a big-endian integer, lies below 2^(256 - 12).
pub proof fn created_block_validates(b: BlockModel)
    requires
        sealed(b),
    ensures
        meets_target(pow_digest(b)),
        be_value(sha256_of(pow_preimage(b.prevhash, tx_root(b.transactions), b.nonce))) < pow2(244),
{
}

} // verus!
