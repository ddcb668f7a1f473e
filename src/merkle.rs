//! The Merkle root of a list of byte strings, computed level by level.
use crate::codec::put_raw;
use crate::crypto::{sha256, sha256_of};
use crate::error::Error;
use vstd::prelude::*;

verus! {

/// The byte strings of a list of byte vectors.
pub open spec fn bytes_model(s: Seq<Vec<u8>>) -> Seq<Seq<u8>> {
    s.map_values(|v: Vec<u8>| v@)
}

/// The leaf level: each datum hashed, the first repeated at the end when
/// their count is odd.
pub open spec fn merkle_leaves(datas: Seq<Seq<u8>>) -> Seq<Seq<u8>> {
    let padded = if datas.len() % 2 == 1 {
        datas.push(datas[0])
    } else {
        datas
    };
    padded.map_values(|d: Seq<u8>| sha256_of(d))
}

/// The parent of node `j` of the level above: the hash of its two children,
/// or of its single child at the end of an odd level.
pub open spec fn merkle_parent(hs: Seq<Seq<u8>>, j: int) -> Seq<u8> {
    if 2 * j + 1 < hs.len() {
        sha256_of(hs[2 * j] + hs[2 * j + 1])
    } else {
        sha256_of(hs[2 * j])
    }
}

/// The level above `hs`.
pub open spec fn merkle_level(hs: Seq<Seq<u8>>) -> Seq<Seq<u8>> {
    Seq::new(((hs.len() + 1) / 2) as nat, |j: int| merkle_parent(hs, j))
}

/// The single hash that the levels above `hs` end in.
pub open spec fn merkle_top(hs: Seq<Seq<u8>>) -> Seq<u8>
    decreases hs.len(),
{
    if hs.len() <= 1 {
        hs[0]
    } else {
        merkle_top(merkle_level(hs))
    }
}

/// The Merkle root of a non-empty list of data.
pub open spec fn merkle_root(datas: Seq<Seq<u8>>) -> Seq<u8> {
    merkle_top(merkle_leaves(datas))
}

/// A Merkle tree, kept as its root.
pub struct MerkleTree {
    root: Vec<u8>,
}

impl MerkleTree {
    pub closed spec fn root_view(&self) -> Seq<u8> {
        self.root@
    }

    /// The tree over `datas`; `Error::EmptyData` where there are none.
    pub fn new(datas: Vec<Vec<u8>>) -> (r: Result<MerkleTree, Error>)
        ensures
            r matches Ok(t) ==> t.root_view() == merkle_root(bytes_model(datas@)),
            r is Err <==> datas@.len() == 0,
            r is Err ==> r == Err::<MerkleTree, Error>(Error::EmptyData),
    {
        if datas.len() == 0 {
            return Err(Error::EmptyData);
        }
        let ghost ds = bytes_model(datas@);
        let odd = datas.len() % 2 == 1;
        let mut level: Vec<Vec<u8>> = Vec::new();
        let mut i: usize = 0;
        while i < datas.len()
            invariant
                i <= datas@.len(),
                datas@.len() > 0,
                ds == bytes_model(datas@),
                level@.len() == i,
                forall|j: int| 0 <= j < i ==> (#[trigger] level@[j])@ == sha256_of(ds[j]),
            decreases datas@.len() - i,
        {
            level.push(sha256(&datas[i]));
            i = i + 1;
        }
        if odd {
            level.push(sha256(&datas[0]));
        }
        assert(bytes_model(level@) =~= merkle_leaves(ds));
        while level.len() > 1
            invariant
                level@.len() >= 1,
                merkle_top(bytes_model(level@)) == merkle_root(ds),
            decreases level@.len(),
        {
            let next = MerkleTree::parent_level(&level);
            level = next;
        }
        let root = level.pop().unwrap();
        assert(bytes_model(level@.push(root)).len() == 1);
        Ok(MerkleTree { root })
    }

    fn parent_level(level: &Vec<Vec<u8>>) -> (r: Vec<Vec<u8>>)
        requires
            level@.len() > 1,
        ensures
            bytes_model(r@) == merkle_level(bytes_model(level@)),
            r@.len() < level@.len(),
            r@.len() >= 1,
    {
        let ghost hs = bytes_model(level@);
        let mut r: Vec<Vec<u8>> = Vec::new();
        let mut i: usize = 0;
        while i < level.len()
            invariant
                hs == bytes_model(level@),
                i <= level@.len(),
                i % 2 == 0 || i == level@.len(),
                r@.len() == (i + 1) / 2,
                forall|j: int| 0 <= j < r@.len() ==> (#[trigger] r@[j])@ == merkle_parent(hs, j),
            decreases level@.len() - i,
        {
            let mut pair: Vec<u8> = Vec::new();
            put_raw(&mut pair, &level[i]);
            if i + 1 < level.len() {
                put_raw(&mut pair, &level[i + 1]);
                r.push(sha256(&pair));
            } else {
                assert(pair@ =~= hs[i as int]);
                r.push(sha256(&pair));
            }
            i = i + 1;
            if i < level.len() {
                i = i + 1;
            }
        }
        assert(bytes_model(r@) =~= merkle_level(hs));
        r
    }

    /// The root hash.
    pub fn root_hash(&self) -> (r: Vec<u8>)
        ensures
            r@ == self.root_view(),
    {
        crate::codec::copy_bytes(&self.root)
    }
}

} // verus!
