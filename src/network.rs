//! The decisions of the gossip protocol. Each handler takes the node's state
//! and one received message, updates the state, and returns the messages to
//! send; the caller owns the sockets.
use crate::block::Block;
use crate::codec::{bytes_equal, copy_bytes};
use crate::error::Error;
use crate::crypto::{hex_encode, hex_text};
use crate::transaction::{txs_model, Transaction, TransactionModel};
use crate::chain::chain_verifies;
use crate::wallet::address_key_hash;
use crate::utxo::{chain_utxo, UTXOSet};
use vstd::prelude::*;

verus! {

/// The protocol version.
pub const PROTOCOL_VERSION: u32 = 1;

/// What an inventory or a data request is about.
#[derive(Debug, Clone, Copy, PartialEq, Eq, Structural)]
pub enum InvKind {
    Block,
    Tx,
}

/// A protocol message; each carries its sender's address.
#[derive(Debug, Clone)]
pub enum Message {
    Version { version: u32, best_height: u64, addr_from: String },
    GetBlocks { addr_from: String },
    Inv { addr_from: String, kind: InvKind, items: Vec<Vec<u8>> },
    GetData { addr_from: String, kind: InvKind, id: Vec<u8> },
    Block { addr_from: String, block: Block },
    Transaction { addr_from: String, tx: Transaction },
}

/// A message to send, and to whom.
#[derive(Debug, Clone)]
pub struct Outgoing {
    pub to: String,
    pub message: Message,
}

/// The mutable state of a node besides its chain.
pub struct Network {
    pub node_address: String,
    pub central_address: String,
    pub mine_address: String,
    pub known_nodes: Vec<String>,
    pub blocks_in_transit: Vec<Vec<u8>>,
    /// Pending transactions, each filed under the hex text of its id.
    pub memory_pool: Vec<(String, Transaction)>,
}

/// The addresses of a list of strings.
pub open spec fn strings_model(s: Seq<String>) -> Seq<Seq<char>> {
    s.map_values(|a: String| a@)
}

/// The byte strings of a list of byte vectors.
pub open spec fn hashes_model(s: Seq<Vec<u8>>) -> Seq<Seq<u8>> {
    s.map_values(|v: Vec<u8>| v@)
}

/// The model of the memory pool: (key, transaction) pairs.
pub open spec fn pool_model(s: Seq<(String, Transaction)>) -> Seq<(Seq<char>, TransactionModel)> {
    s.map_values(|e: (String, Transaction)| (e.0@, e.1@))
}

/// The position of the first pool entry filed under `key`.
pub open spec fn index_of_key(m: Seq<(Seq<char>, TransactionModel)>, key: Seq<char>) -> Option<int>
    decreases m.len(),
{
    if m.len() == 0 {
        None
    } else {
        match index_of_key(m.drop_last(), key) {
            Some(k) => Some(k),
            None => if m.last().0 == key {
                Some(m.len() - 1)
            } else {
                None
            },
        }
    }
}

/// The pool with `t` filed under the hex text of its id: replacing the first
/// entry under that key, or added at the end.
pub open spec fn pool_insert(m: Seq<(Seq<char>, TransactionModel)>, t: TransactionModel) -> Seq<(Seq<char>, TransactionModel)> {
    match index_of_key(m, hex_text(t.id)) {
        Some(k) => m.update(k, (hex_text(t.id), t)),
        None => m.push((hex_text(t.id), t)),
    }
}

/// Whether the pool holds an entry under the hex text of `id`.
pub open spec fn pool_has(m: Seq<(Seq<char>, TransactionModel)>, id: Seq<u8>) -> bool {
    index_of_key(m, hex_text(id)) is Some
}

proof fn lemma_index_of_key(m: Seq<(Seq<char>, TransactionModel)>, key: Seq<char>)
    ensures
        index_of_key(m, key) matches Some(k) ==> 0 <= k < m.len() && m[k].0 == key,
    decreases m.len(),
{
    if m.len() > 0 {
        lemma_index_of_key(m.drop_last(), key);
    }
}

proof fn lemma_index_of_key_prefix(m: Seq<(Seq<char>, TransactionModel)>, key: Seq<char>, n: int)
    requires
        0 <= n <= m.len(),
        index_of_key(m.subrange(0, n), key) is Some,
    ensures
        index_of_key(m, key) == index_of_key(m.subrange(0, n), key),
    decreases m.len(),
{
    if n < m.len() {
        assert(m.drop_last().subrange(0, n) =~= m.subrange(0, n));
        lemma_index_of_key_prefix(m.drop_last(), key, n);
    } else {
        assert(m.subrange(0, n) =~= m);
    }
}

/// Addresses other than `addr`.
pub open spec fn other_than(addr: Seq<char>) -> spec_fn(Seq<char>) -> bool {
    |a: Seq<char>| a != addr
}

fn copy_string(s: &String) -> (r: String)
    ensures
        r@ == s@,
{
    s.clone()
}

impl Network {
    /// A node at `node_address` that knows the central node alone.
    pub fn new(node_address: String, mine_address: String, central: String) -> (r: Self)
        ensures
            r.node_address@ == node_address@,
            r.central_address@ == central@,
            r.mine_address@ == mine_address@,
            strings_model(r.known_nodes@) == seq![central@],
            r.blocks_in_transit@.len() == 0,
            r.memory_pool@.len() == 0,
    {
        let r = Network {
            node_address,
            central_address: copy_string(&central),
            mine_address,
            known_nodes: vec![central],
            blocks_in_transit: Vec::new(),
            memory_pool: Vec::new(),
        };
        assert(strings_model(r.known_nodes@) =~= seq![central@]);
        r
    }

    /// Whether `addr` is a known peer.
    pub fn knows(&self, addr: &String) -> (r: bool)
        ensures
            r == strings_model(self.known_nodes@).contains(addr@),
    {
        let mut i: usize = 0;
        while i < self.known_nodes.len()
            invariant
                i <= self.known_nodes@.len(),
                forall|j: int| 0 <= j < i ==> (#[trigger] strings_model(self.known_nodes@)[j]) != addr@,
            decreases self.known_nodes@.len() - i,
        {
            if self.known_nodes[i] == *addr {
                assert(strings_model(self.known_nodes@)[i as int] == addr@);
                return true;
            }
            i = i + 1;
        }
        false
    }

    /// Adds `addr` to the known peers unless it is there already.
    pub fn add_peer(&mut self, addr: &String)
        ensures
            strings_model(old(self).known_nodes@).contains(addr@) ==> final(self).known_nodes@ == old(self).known_nodes@,
            !strings_model(old(self).known_nodes@).contains(addr@) ==> strings_model(final(self).known_nodes@)
                == strings_model(old(self).known_nodes@).push(addr@),
            final(self).node_address == old(self).node_address,
            final(self).central_address == old(self).central_address,
            final(self).mine_address == old(self).mine_address,
            final(self).blocks_in_transit == old(self).blocks_in_transit,
            final(self).memory_pool == old(self).memory_pool,
    {
        if !self.knows(addr) {
            let ghost m = strings_model(self.known_nodes@);
            self.known_nodes.push(copy_string(addr));
            assert(strings_model(self.known_nodes@) =~= m.push(addr@));
        }
    }

    /// Forgets a peer that could not be reached.
    pub fn drop_peer(&mut self, addr: &String)
        ensures
            strings_model(final(self).known_nodes@) == strings_model(old(self).known_nodes@).filter(other_than(addr@)),
            final(self).node_address == old(self).node_address,
            final(self).central_address == old(self).central_address,
            final(self).mine_address == old(self).mine_address,
            final(self).blocks_in_transit == old(self).blocks_in_transit,
            final(self).memory_pool == old(self).memory_pool,
    {
        let ghost m = strings_model(self.known_nodes@);
        let mut kept: Vec<String> = Vec::new();
        let mut i: usize = 0;
        while i < self.known_nodes.len()
            invariant
                m == strings_model(self.known_nodes@),
                i <= self.known_nodes@.len(),
                strings_model(kept@) == m.subrange(0, i as int).filter(other_than(addr@)),
            decreases self.known_nodes@.len() - i,
        {
            let ghost k0 = strings_model(kept@);
            assert(m.subrange(0, i + 1).drop_last() =~= m.subrange(0, i as int));
            let ghost f = other_than(addr@);
            proof {
                reveal(Seq::filter);
            }
            assert(m.subrange(0, i + 1).filter(f) == if f(m[i as int]) {
                m.subrange(0, i as int).filter(f).push(m[i as int])
            } else {
                m.subrange(0, i as int).filter(f)
            });
            if self.known_nodes[i] != *addr {
                kept.push(copy_string(&self.known_nodes[i]));
                assert(strings_model(kept@) =~= k0.push(m[i as int]));
            }
            i = i + 1;
        }
        assert(m.subrange(0, i as int) =~= m);
        self.known_nodes = kept;
    }

    fn pool_find(&self, key: &String) -> (r: Option<usize>)
        ensures
            r matches Some(k) ==> index_of_key(pool_model(self.memory_pool@), key@) == Some(k as int) && k
                < self.memory_pool@.len(),
            r is None ==> index_of_key(pool_model(self.memory_pool@), key@) is None,
    {
        let ghost m = pool_model(self.memory_pool@);
        let mut i: usize = 0;
        while i < self.memory_pool.len()
            invariant
                m == pool_model(self.memory_pool@),
                i <= self.memory_pool@.len(),
                index_of_key(m.subrange(0, i as int), key@) is None,
            decreases self.memory_pool@.len() - i,
        {
            assert(m.subrange(0, i + 1).drop_last() =~= m.subrange(0, i as int));
            if self.memory_pool[i].0 == *key {
                proof {
                    lemma_index_of_key_prefix(m, key@, i + 1);
                }
                return Some(i);
            }
            i = i + 1;
        }
        assert(m.subrange(0, i as int) =~= m);
        None
    }

    /// Whether the pool holds a transaction filed under the hex text of `id`.
    pub fn pool_contains(&self, id: &[u8]) -> (r: bool)
        ensures
            r == pool_has(pool_model(self.memory_pool@), id@),
    {
        self.pool_find(&hex_encode(id)).is_some()
    }

    /// Files `t` in the memory pool under the hex text of its id.
    pub fn pool_insert(&mut self, t: Transaction)
        ensures
            pool_model(final(self).memory_pool@) == pool_insert(pool_model(old(self).memory_pool@), t@),
            final(self).node_address == old(self).node_address,
            final(self).central_address == old(self).central_address,
            final(self).mine_address == old(self).mine_address,
            final(self).known_nodes == old(self).known_nodes,
            final(self).blocks_in_transit == old(self).blocks_in_transit,
    {
        let ghost m = pool_model(self.memory_pool@);
        let ghost tm = t@;
        let key = hex_encode(&t.id);
        match self.pool_find(&key) {
            Some(k) => {
                self.memory_pool.set(k, (key, t));
                assert(pool_model(self.memory_pool@) =~= m.update(k as int, (hex_text(tm.id), tm)));
            },
            None => {
                self.memory_pool.push((key, t));
                assert(pool_model(self.memory_pool@) =~= m.push((hex_text(tm.id), tm)));
            },
        }
    }
}

/// `m` is Version(`PROTOCOL_VERSION`, `best_height`) from `from`.
pub open spec fn is_version(m: Message, best_height: u64, from: Seq<char>) -> bool {
    match m {
        Message::Version { version, best_height: h, addr_from } => version == PROTOCOL_VERSION && h == best_height
            && addr_from@ == from,
        _ => false,
    }
}

/// `m` is GetBlocks from `from`.
pub open spec fn is_get_blocks(m: Message, from: Seq<char>) -> bool {
    match m {
        Message::GetBlocks { addr_from } => addr_from@ == from,
        _ => false,
    }
}

/// `m` is Inv(`kind`, `items`) from `from`.
pub open spec fn is_inv(m: Message, kind: InvKind, items: Seq<Seq<u8>>, from: Seq<char>) -> bool {
    match m {
        Message::Inv { addr_from, kind: k, items: i } => addr_from@ == from && k == kind && hashes_model(i@) == items,
        _ => false,
    }
}

/// `m` is GetData(`kind`, `id`) from `from`.
pub open spec fn is_get_data(m: Message, kind: InvKind, id: Seq<u8>, from: Seq<char>) -> bool {
    match m {
        Message::GetData { addr_from, kind: k, id: i } => addr_from@ == from && k == kind && i@ == id,
        _ => false,
    }
}

/// `m` carries block `b` from `from`.
pub open spec fn is_block_message(m: Message, b: crate::block::BlockModel, from: Seq<char>) -> bool {
    match m {
        Message::Block { addr_from, block } => addr_from@ == from && block@ == b,
        _ => false,
    }
}

/// `m` carries transaction `t` from `from`.
pub open spec fn is_tx_message(m: Message, t: TransactionModel, from: Seq<char>) -> bool {
    match m {
        Message::Transaction { addr_from, tx } => addr_from@ == from && tx@ == t,
        _ => false,
    }
}

/// What `handle_version` guarantees.
pub open spec fn version_handled(o: Network, n: Network, ou: UTXOSet, nu: UTXOSet, best_height: u64, addr_from: String, r: Vec<Outgoing>) -> bool {
    &&& ({
        let own = ou.chain.tip().height;
        &&& own < best_height ==> r@.len() == 1 && r@[0].to@ == addr_from@ && is_get_blocks(
            r@[0].message,
            o.node_address@,
    )
        &&& own > best_height ==> r@.len() == 1 && r@[0].to@ == addr_from@ && is_version(
            r@[0].message,
            own,
            o.node_address@,
    )
        &&& own == best_height ==> r@.len() == 0
    })
    &&& strings_model(o.known_nodes@).contains(addr_from@) ==> n.known_nodes@ == o.known_nodes@
    &&& !strings_model(o.known_nodes@).contains(addr_from@) ==> strings_model(n.known_nodes@)
        == strings_model(o.known_nodes@).push(addr_from@)
    &&& n.node_address == o.node_address
    &&& n.blocks_in_transit == o.blocks_in_transit
    &&& n.memory_pool == o.memory_pool
}

/// What `handle_get_blocks` guarantees.
pub open spec fn get_blocks_handled(o: Network, n: Network, ou: UTXOSet, nu: UTXOSet, addr_from: String, r: Vec<Outgoing>) -> bool {
    &&& r@.len() == 1 && r@[0].to@ == addr_from@
    &&& is_inv(
        r@[0].message,
        InvKind::Block,
        ou.chain.chain().map_values(|b: crate::block::BlockModel| b.hash),
        o.node_address@
    )
}

/// What `handle_inv` guarantees.
pub open spec fn inv_handled(o: Network, n: Network, ou: UTXOSet, nu: UTXOSet, addr_from: String, kind: InvKind, items: Vec<Vec<u8>>, r: Vec<Outgoing>) -> bool {
    &&& items@.len() == 0 ==> r@.len() == 0 && n.blocks_in_transit == o.blocks_in_transit
    &&& items@.len() > 0 && kind == InvKind::Block ==> r@.len() == 1 && r@[0].to@ == addr_from@ && is_get_data(
        r@[0].message,
        InvKind::Block,
        items@[0]@,
        o.node_address@
    ) && hashes_model(n.blocks_in_transit@) == hashes_model(items@)
    &&& items@.len() > 0 && kind == InvKind::Tx && !pool_has(pool_model(o.memory_pool@), items@[0]@)
        ==> r@.len() == 1 && r@[0].to@ == addr_from@ && is_get_data(
        r@[0].message,
        InvKind::Tx,
        items@[0]@,
        o.node_address@
    )
    &&& items@.len() > 0 && kind == InvKind::Tx && pool_has(pool_model(o.memory_pool@), items@[0]@)
        ==> r@.len() == 0
    &&& kind == InvKind::Tx ==> n.blocks_in_transit == o.blocks_in_transit
    &&& n.node_address == o.node_address
    &&& n.known_nodes == o.known_nodes
    &&& n.memory_pool == o.memory_pool
}

/// What `handle_get_data` guarantees.
pub open spec fn get_data_handled(o: Network, n: Network, ou: UTXOSet, nu: UTXOSet, addr_from: String, kind: InvKind, id: Vec<u8>, r: Result<Vec<Outgoing>, Error>) -> bool {
    &&& kind == InvKind::Block ==> match crate::chain::index_of_hash(ou.chain.blocks_view(), id@) {
        Some(k) => r is Ok && r->Ok_0@.len() == 1 && r->Ok_0@[0].to@ == addr_from@ && is_block_message(
            r->Ok_0@[0].message,
            ou.chain.blocks_view()[k],
            o.node_address@,
    ),
        None => r == Err::<Vec<Outgoing>, Error>(Error::BlockNotFound)
    }
    &&& kind == InvKind::Tx ==> match index_of_key(pool_model(o.memory_pool@), hex_text(id@)) {
        Some(k) => r is Ok && r->Ok_0@.len() == 1 && r->Ok_0@[0].to@ == addr_from@ && is_tx_message(
            r->Ok_0@[0].message,
            pool_model(o.memory_pool@)[k].1,
            o.node_address@,
    ),
        None => r == Err::<Vec<Outgoing>, Error>(Error::TransactionNotFound)
    }
}

/// What `handle_block` guarantees.
pub open spec fn block_handled(o: Network, n: Network, ou: UTXOSet, nu: UTXOSet, addr_from: String, block: Block, r: Result<Vec<Outgoing>, Error>) -> bool {
    &&& crate::chain::index_of_hash(ou.chain.blocks_view(), block@.hash) is None && !all_verify(
        ou.chain.chain_txs(),
        block@.transactions
    ) ==> r == Err::<Vec<Outgoing>, Error>(Error::InvalidTransaction) && nu.chain == ou.chain
        && nu.entries == ou.entries && n.blocks_in_transit == o.blocks_in_transit
    &&& crate::chain::index_of_hash(ou.chain.blocks_view(), block@.hash) is Some || all_verify(
        ou.chain.chain_txs(),
        block@.transactions
    ) ==> r is Ok
    &&& crate::chain::index_of_hash(ou.chain.blocks_view(), block@.hash) is Some ==> nu.chain.blocks_view()
        == ou.chain.blocks_view() && nu.chain.lasthash_view() == ou.chain.lasthash_view()
    &&& crate::chain::index_of_hash(ou.chain.blocks_view(), block@.hash) is Some && ou.wf() ==> nu.entries_view()
        == ou.entries_view() && nu.wf()
    &&& r is Ok && crate::chain::index_of_hash(ou.chain.blocks_view(), block@.hash) is None ==> nu.chain.blocks_view()
        == ou.chain.blocks_view().push(block@)
    &&& r is Ok && crate::chain::index_of_hash(ou.chain.blocks_view(), block@.hash) is None && block.height > ou.chain.tip().height ==> nu.chain.lasthash_view() == block@.hash
    &&& r is Ok && crate::chain::index_of_hash(ou.chain.blocks_view(), block@.hash) is None && block.height <= ou.chain.tip().height ==> nu.chain.lasthash_view() == ou.chain.lasthash_view()
    &&& r is Ok && o.blocks_in_transit@.len() > 0 ==> r->Ok_0@.len() == 1 && r->Ok_0@[0].to@ == addr_from@ && is_get_data(
        r->Ok_0@[0].message,
        InvKind::Block,
        o.blocks_in_transit@[0]@,
        o.node_address@
    ) && hashes_model(n.blocks_in_transit@) == hashes_model(o.blocks_in_transit@).drop_first()
        && nu.entries_view() == ou.entries_view()
    &&& r is Ok && o.blocks_in_transit@.len() == 0 ==> r->Ok_0@.len() == 0 && nu.entries_view() == chain_utxo(
        nu.chain.chain_txs()
    ) && n.blocks_in_transit == o.blocks_in_transit
    &&& n.node_address == o.node_address
    &&& n.known_nodes == o.known_nodes
    &&& n.memory_pool == o.memory_pool
}

/// What `handle_tx` guarantees.
pub open spec fn tx_handled(o: Network, n: Network, ou: UTXOSet, nu: UTXOSet, addr_from: String, tx: Transaction, r: Result<Vec<Outgoing>, Error>) -> bool {
    &&& o.node_address@ == o.central_address@ ==> r is Ok && nu.chain == ou.chain
        && pool_model(n.memory_pool@) == pool_insert(pool_model(o.memory_pool@), tx@) && forall|k: int|
        0 <= k < r->Ok_0@.len() ==> is_inv(#[trigger] r->Ok_0@[k].message, InvKind::Tx, seq![tx@.id], o.node_address@)
    &&& o.node_address@ == o.central_address@ ==> forall|j: int|
        0 <= j < o.known_nodes@.len() && o.known_nodes@[j]@ != o.node_address@
            && o.known_nodes@[j]@ != addr_from@ ==> exists|k: int|
            0 <= k < r->Ok_0@.len() && (#[trigger] r->Ok_0@[k]).to@ == (#[trigger] o.known_nodes@[j])@
    &&& o.node_address@ != o.central_address@ && o.mine_address@.len() > 0 ==> exists|mid: Network|
        #![trigger mined(mid, n, ou, nu, r)]
        {
            &&& pool_model(mid.memory_pool@) == pool_insert(pool_model(o.memory_pool@), tx@)
            &&& mid.node_address == o.node_address
            &&& mid.central_address == o.central_address
            &&& mid.mine_address == o.mine_address
            &&& mid.known_nodes == o.known_nodes
            &&& mid.blocks_in_transit == o.blocks_in_transit
            &&& mined(mid, n, ou, nu, r)
    }
    &&& o.node_address@ != o.central_address@ && o.mine_address@.len() == 0 ==> r is Ok
        && r->Ok_0@.len() == 0 && nu.chain == ou.chain
        && pool_model(n.memory_pool@) == pool_insert(pool_model(o.memory_pool@), tx@)
    &&& n.node_address == o.node_address
    &&& n.known_nodes == o.known_nodes
}

/// The version message of a node at `best_height`.
pub fn version_message(net: &Network, best_height: u64) -> (r: Message)
    ensures
        is_version(r, best_height, net.node_address@),
{
    Message::Version { version: PROTOCOL_VERSION, best_height, addr_from: copy_string(&net.node_address) }
}

/// The message that opens a node's exchange with the central node: its
/// version, unless it is the central node itself.
pub fn startup(net: &Network, utxo: &UTXOSet) -> (r: Vec<Outgoing>)
    requires
        utxo.chain.wf(),
    ensures
        net.node_address@ == net.central_address@ ==> r@.len() == 0,
        net.node_address@ != net.central_address@ ==> r@.len() == 1 && r@[0].to@ == net.central_address@
            && is_version(r@[0].message, utxo.chain.tip().height, net.node_address@),
{
    let mut r: Vec<Outgoing> = Vec::new();
    if net.node_address != net.central_address {
        let m = version_message(net, utxo.chain.get_best_height());
        r.push(Outgoing { to: copy_string(&net.central_address), message: m });
    }
    r
}

/// Version: ask a taller peer for its blocks, answer a shorter one with our
/// version, and remember the peer.
pub fn handle_version(net: &mut Network, utxo: &UTXOSet, best_height: u64, addr_from: &String) -> (r: Vec<Outgoing>)
    requires
        utxo.chain.wf(),
    ensures
        version_handled(*old(net), *final(net), *utxo, *utxo, best_height, *addr_from, r),
{
    let own = utxo.chain.get_best_height();
    let mut r: Vec<Outgoing> = Vec::new();
    if own < best_height {
        r.push(Outgoing { to: copy_string(addr_from), message: Message::GetBlocks { addr_from: copy_string(&net.node_address) } });
    } else if own > best_height {
        r.push(Outgoing { to: copy_string(addr_from), message: version_message(net, own) });
    }
    net.add_peer(addr_from);
    r
}

/// GetBlocks: offer the hashes of the chain, from the tip back to genesis.
pub fn handle_get_blocks(net: &Network, utxo: &UTXOSet, addr_from: &String) -> (r: Vec<Outgoing>)
    ensures
        get_blocks_handled(*net, *net, *utxo, *utxo, *addr_from, r),
{
    let items = utxo.chain.get_block_hashes();
    assert(hashes_model(items@) =~= utxo.chain.chain().map_values(|b: crate::block::BlockModel| b.hash));
    let m = Message::Inv { addr_from: copy_string(&net.node_address), kind: InvKind::Block, items };
    vec![Outgoing { to: copy_string(addr_from), message: m }]
}

/// Inv: for blocks, queue all offered hashes and ask for the first (each
/// Block received then asks for the queue's head and pops it); for a
/// transaction, ask for it unless the pool has it.
pub fn handle_inv(net: &mut Network, addr_from: &String, kind: InvKind, items: Vec<Vec<u8>>) -> (r: Vec<Outgoing>)
    ensures
        forall|u: UTXOSet| inv_handled(*old(net), *final(net), u, u, *addr_from, kind, items, r),
{
    let mut r: Vec<Outgoing> = Vec::new();
    if items.len() == 0 {
        return r;
    }
    let first = copy_bytes(&items[0]);
    match kind {
        InvKind::Block => {
            let mut rest: Vec<Vec<u8>> = Vec::new();
            let mut i: usize = 0;
            while i < items.len()
                invariant
                    i <= items@.len(),
                    hashes_model(rest@) == hashes_model(items@).subrange(0, i as int),
                decreases items@.len() - i,
            {
                let ghost r0 = hashes_model(rest@);
                rest.push(copy_bytes(&items[i]));
                assert(hashes_model(rest@) =~= r0.push(items@[i as int]@));
                assert(hashes_model(items@).subrange(0, i + 1) =~= hashes_model(items@).subrange(0, i as int).push(items@[i as int]@));
                i = i + 1;
            }
            assert(hashes_model(items@).subrange(0, i as int) =~= hashes_model(items@));
            net.blocks_in_transit = rest;
            let m = Message::GetData { addr_from: copy_string(&net.node_address), kind: InvKind::Block, id: first };
            r.push(Outgoing { to: copy_string(addr_from), message: m });
        },
        InvKind::Tx => {
            if !net.pool_contains(&first) {
                let m = Message::GetData { addr_from: copy_string(&net.node_address), kind: InvKind::Tx, id: first };
                r.push(Outgoing { to: copy_string(addr_from), message: m });
            }
        },
    }
    r
}

/// GetData: send the block from the chain, or the transaction from the pool;
/// `Error::BlockNotFound` or `Error::TransactionNotFound` where it is absent.
pub fn handle_get_data(net: &Network, utxo: &UTXOSet, addr_from: &String, kind: InvKind, id: &Vec<u8>) -> (r: Result<Vec<Outgoing>, Error>)
    ensures
        get_data_handled(*net, *net, *utxo, *utxo, *addr_from, kind, *id, r),
{
    match kind {
        InvKind::Block => match utxo.chain.get_block(id) {
            Some(block) => {
                let m = Message::Block { addr_from: copy_string(&net.node_address), block };
                Ok(vec![Outgoing { to: copy_string(addr_from), message: m }])
            },
            None => Err(Error::BlockNotFound),
        },
        InvKind::Tx => match net.pool_find(&hex_encode(id)) {
            Some(k) => {
                let tx = net.memory_pool[k].1.duplicate();
                let m = Message::Transaction { addr_from: copy_string(&net.node_address), tx };
                Ok(vec![Outgoing { to: copy_string(addr_from), message: m }])
            },
            None => Err(Error::TransactionNotFound),
        },
    }
}

/// Every transaction of `txs` verifies against the chain transactions `chain`.
pub open spec fn all_verify(chain: Seq<TransactionModel>, txs: Seq<TransactionModel>) -> bool {
    forall|k: int| 0 <= k < txs.len() ==> chain_verifies(chain, #[trigger] txs[k])
}

/// Block: a block already stored changes nothing; a new one is stored if
/// each of its transactions verifies against the chain (and refused with
/// `Error::InvalidTransaction`, changing nothing, otherwise), the tip moving
/// only to a taller block. Then the sender is asked for the next queued hash,
/// or, with the queue empty, the unspent-output index is rebuilt from the
/// chain.
pub fn handle_block(net: &mut Network, utxo: &mut UTXOSet, addr_from: &String, block: &Block) -> (r: Result<Vec<Outgoing>, Error>)
    requires
        old(utxo).chain.wf(),
    ensures
        final(utxo).chain.wf(),
        block_handled(*old(net), *final(net), *old(utxo), *final(utxo), *addr_from, *block, r),
{
    if utxo.chain.get_block(&block.hash).is_none() {
        let mut i: usize = 0;
        while i < block.transactions.len()
            invariant
                i <= block.transactions@.len(),
                *utxo == *old(utxo),
                *net == *old(net),
                utxo.chain.wf(),
                crate::chain::index_of_hash(utxo.chain.blocks_view(), block@.hash) is None,
                forall|k: int| 0 <= k < i ==> chain_verifies(utxo.chain.chain_txs(), #[trigger] block@.transactions[k]),
            decreases block.transactions@.len() - i,
        {
            assert(block@.transactions[i as int] == block.transactions@[i as int]@);
            if utxo.chain.verify_transaction(&block.transactions[i]).is_err() {
                return Err(Error::InvalidTransaction);
            }
            i = i + 1;
        }
    }
    let _ = utxo.chain.add_block(block);
    let mut r: Vec<Outgoing> = Vec::new();
    if net.blocks_in_transit.len() > 0 {
        let ghost before = hashes_model(net.blocks_in_transit@);
        let next = net.blocks_in_transit.remove(0);
        assert(hashes_model(net.blocks_in_transit@) =~= before.drop_first());
        let m = Message::GetData { addr_from: copy_string(&net.node_address), kind: InvKind::Block, id: next };
        r.push(Outgoing { to: copy_string(addr_from), message: m });
    } else {
        utxo.reindex();
    }
    Ok(r)
}

/// Pool entries filed under none of `keys`.
pub open spec fn key_not_in(keys: Seq<Seq<char>>) -> spec_fn((Seq<char>, TransactionModel)) -> bool {
    |e: (Seq<char>, TransactionModel)| !keys.contains(e.0)
}

/// Pool entries whose transaction verifies against `txs`.
pub open spec fn entry_verifies(txs: Seq<TransactionModel>) -> spec_fn((Seq<char>, TransactionModel)) -> bool {
    |e: (Seq<char>, TransactionModel)| chain_verifies(txs, e.1)
}

/// The transactions of pool entries.
pub open spec fn entry_txs(m: Seq<(Seq<char>, TransactionModel)>) -> Seq<TransactionModel> {
    m.map_values(|e: (Seq<char>, TransactionModel)| e.1)
}

/// The pool keys of a list of transaction ids.
pub open spec fn keys_of(ids: Seq<Seq<u8>>) -> Seq<Seq<char>> {
    ids.map_values(|id: Seq<u8>| hex_text(id))
}

/// Whether `key` is among `keys`.
fn contains_key(keys: &Vec<String>, key: &String) -> (r: bool)
    ensures
        r == strings_model(keys@).contains(key@),
{
    let mut i: usize = 0;
    while i < keys.len()
        invariant
            i <= keys@.len(),
            forall|j: int| 0 <= j < i ==> (#[trigger] strings_model(keys@)[j]) != key@,
        decreases keys@.len() - i,
    {
        if keys[i] == *key {
            assert(strings_model(keys@)[i as int] == key@);
            return true;
        }
        i = i + 1;
    }
    false
}

impl Network {
    /// Removes from the memory pool every entry filed under the hex text of
    /// one of `ids`.
    pub fn pool_remove_all(&mut self, ids: &Vec<Vec<u8>>)
        ensures
            pool_model(final(self).memory_pool@) == pool_model(old(self).memory_pool@).filter(
                key_not_in(keys_of(hashes_model(ids@))),
            ),
            final(self).node_address == old(self).node_address,
            final(self).central_address == old(self).central_address,
            final(self).mine_address == old(self).mine_address,
            final(self).known_nodes == old(self).known_nodes,
            final(self).blocks_in_transit == old(self).blocks_in_transit,
    {
        let mut keys: Vec<String> = Vec::new();
        let mut j: usize = 0;
        while j < ids.len()
            invariant
                j <= ids@.len(),
                keys@.len() == j,
                forall|q: int| 0 <= q < j ==> (#[trigger] keys@[q])@ == hex_text(ids@[q]@),
            decreases ids@.len() - j,
        {
            keys.push(hex_encode(&ids[j]));
            j = j + 1;
        }
        assert(strings_model(keys@) =~= keys_of(hashes_model(ids@)));
        let ghost m = pool_model(self.memory_pool@);
        let ghost f = key_not_in(keys_of(hashes_model(ids@)));
        let mut kept: Vec<(String, Transaction)> = Vec::new();
        let mut i: usize = 0;
        while i < self.memory_pool.len()
            invariant
                m == pool_model(self.memory_pool@),
                f == key_not_in(strings_model(keys@)),
                i <= self.memory_pool@.len(),
                pool_model(kept@) == m.subrange(0, i as int).filter(f),
            decreases self.memory_pool@.len() - i,
        {
            let ghost k0 = pool_model(kept@);
            assert(m.subrange(0, i + 1).drop_last() =~= m.subrange(0, i as int));
            proof {
                reveal(Seq::filter);
            }
            assert(m.subrange(0, i + 1).filter(f) == if f(m[i as int]) {
                m.subrange(0, i as int).filter(f).push(m[i as int])
            } else {
                m.subrange(0, i as int).filter(f)
            });
            if !contains_key(&keys, &self.memory_pool[i].0) {
                let e = (copy_string(&self.memory_pool[i].0), self.memory_pool[i].1.duplicate());
                kept.push(e);
                assert(pool_model(kept@) =~= k0.push(m[i as int]));
            }
            i = i + 1;
        }
        assert(m.subrange(0, i as int) =~= m);
        self.memory_pool = kept;
    }
}

/// The pool's transactions that verify against the chain, in pool order.
fn valid_pool_transactions(net: &Network, utxo: &UTXOSet) -> (r: Vec<Transaction>)
    ensures
        txs_model(r@) == entry_txs(pool_model(net.memory_pool@).filter(entry_verifies(utxo.chain.chain_txs()))),
{
    let ghost m = pool_model(net.memory_pool@);
    let ghost f = entry_verifies(utxo.chain.chain_txs());
    let mut kept: Vec<Transaction> = Vec::new();
    let mut i: usize = 0;
    while i < net.memory_pool.len()
        invariant
            m == pool_model(net.memory_pool@),
            f == entry_verifies(utxo.chain.chain_txs()),
            i <= net.memory_pool@.len(),
            txs_model(kept@) == entry_txs(m.subrange(0, i as int).filter(f)),
        decreases net.memory_pool@.len() - i,
    {
        let ghost k0 = txs_model(kept@);
        assert(m.subrange(0, i + 1).drop_last() =~= m.subrange(0, i as int));
        proof {
            reveal(Seq::filter);
        }
        assert(m.subrange(0, i + 1).filter(f) == if f(m[i as int]) {
            m.subrange(0, i as int).filter(f).push(m[i as int])
        } else {
            m.subrange(0, i as int).filter(f)
        });
        assert(entry_txs(m.subrange(0, i as int).filter(f).push(m[i as int])) =~= entry_txs(
            m.subrange(0, i as int).filter(f),
        ).push(m[i as int].1));
        if utxo.chain.verify_transaction(&net.memory_pool[i].1).is_ok() {
            let t = net.memory_pool[i].1.duplicate();
            kept.push(t);
            assert(txs_model(kept@) =~= k0.push(m[i as int].1));
        }
        i = i + 1;
    }
    assert(m.subrange(0, i as int) =~= m);
    kept
}

/// The inventory of `items` of `kind`, sent to every known peer but this node
/// and `except`.
fn announce(net: &Network, kind: InvKind, items: &Vec<Vec<u8>>, except: &String) -> (r: Vec<Outgoing>)
    ensures
        r@.len() <= net.known_nodes@.len(),
        forall|k: int| 0 <= k < r@.len() ==> strings_model(net.known_nodes@).contains((#[trigger] r@[k]).to@) && r@[k].to@
            != net.node_address@ && r@[k].to@ != except@ && is_inv(r@[k].message, kind, hashes_model(items@), net.node_address@),
        forall|j: int| 0 <= j < net.known_nodes@.len() && net.known_nodes@[j]@ != net.node_address@ && net.known_nodes@[j]@
            != except@ ==> exists|k: int| 0 <= k < r@.len() && (#[trigger] r@[k]).to@ == (#[trigger] net.known_nodes@[j])@,
{
    let mut r: Vec<Outgoing> = Vec::new();
    let mut i: usize = 0;
    while i < net.known_nodes.len()
        invariant
            i <= net.known_nodes@.len(),
            r@.len() <= i,
            forall|k: int| 0 <= k < r@.len() ==> strings_model(net.known_nodes@).contains((#[trigger] r@[k]).to@) && r@[k].to@
                != net.node_address@ && r@[k].to@ != except@ && is_inv(r@[k].message, kind, hashes_model(items@), net.node_address@),
            forall|j: int| 0 <= j < i && net.known_nodes@[j]@ != net.node_address@ && net.known_nodes@[j]@ != except@
                ==> exists|k: int| 0 <= k < r@.len() && (#[trigger] r@[k]).to@ == (#[trigger] net.known_nodes@[j])@,
        decreases net.known_nodes@.len() - i,
    {
        let node = &net.known_nodes[i];
        if *node != net.node_address && *node != *except {
            let mut copy: Vec<Vec<u8>> = Vec::new();
            let mut j: usize = 0;
            while j < items.len()
                invariant
                    j <= items@.len(),
                    copy@.len() == j,
                    forall|q: int| 0 <= q < j ==> (#[trigger] copy@[q])@ == items@[q]@,
                decreases items@.len() - j,
            {
                copy.push(copy_bytes(&items[j]));
                j = j + 1;
            }
            assert(hashes_model(copy@) =~= hashes_model(items@));
            let m = Message::Inv { addr_from: copy_string(&net.node_address), kind, items: copy };
            assert(strings_model(net.known_nodes@)[i as int] == node@);
            let ghost r0 = r@;
            r.push(Outgoing { to: copy_string(node), message: m });
            assert(r@[r@.len() - 1].to@ == net.known_nodes@[i as int]@);
            assert forall|j: int| 0 <= j < i + 1 && net.known_nodes@[j]@ != net.node_address@ && net.known_nodes@[j]@
                != except@ implies exists|k: int| 0 <= k < r@.len() && (#[trigger] r@[k]).to@ == (
            #[trigger] net.known_nodes@[j])@ by {
                if j < i {
                    let k = choose|k: int| 0 <= k < r0.len() && (#[trigger] r0[k]).to@ == net.known_nodes@[j]@;
                    assert(r@[k] == r0[k]);
                } else {
                    assert(r@[r@.len() - 1].to@ == net.known_nodes@[j]@);
                }
            }
        }
        i = i + 1;
    }
    r
}

/// The valid transactions of a pool: those that verify against `chain`.
pub open spec fn valid_pool(pool: Seq<(String, Transaction)>, chain: Seq<TransactionModel>) -> Seq<TransactionModel> {
    entry_txs(pool_model(pool).filter(entry_verifies(chain)))
}

/// What mining the pool of `o` (index `ou`) leads to: `n`, `nu` and the
/// messages `r`.
pub open spec fn mined(o: Network, n: Network, ou: UTXOSet, nu: UTXOSet, r: Result<Vec<Outgoing>, Error>) -> bool {
    let valid = valid_pool(o.memory_pool@, ou.chain.chain_txs());
    &&& n.node_address == o.node_address
    &&& n.known_nodes == o.known_nodes
    &&& valid.len() == 0 ==> r is Ok && r->Ok_0@.len() == 0 && nu.chain == ou.chain && nu.entries == ou.entries
        && n.memory_pool == o.memory_pool
    &&& valid.len() > 0 && address_key_hash(o.mine_address@) is None ==> r is Err
    &&& r is Err ==> nu.chain.blocks_view() == ou.chain.blocks_view() && nu.chain.lasthash_view() == ou.chain.lasthash_view()
        && nu.entries == ou.entries && n.memory_pool == o.memory_pool
    &&& r is Ok && valid.len() > 0 ==> {
        let b = nu.chain.tip();
        let out = r->Ok_0@;
        &&& nu.chain.blocks_view() == ou.chain.blocks_view().push(b)
        &&& b.transactions.len() == valid.len() + 1
        &&& b.transactions.subrange(0, valid.len() as int) == valid
        &&& crate::transaction::is_coinbase_model(b.transactions.last())
        &&& b.transactions.last().outputs == seq![
            crate::tx::OutputModel { value: crate::transaction::REWARD, public_key_hash: address_key_hash(o.mine_address@)->0 },
        ]
        &&& b.height == ou.chain.tip().height + 1
        &&& crate::block::sealed(b)
        &&& nu.entries_view() == chain_utxo(nu.chain.chain_txs())
        &&& pool_model(n.memory_pool@) == pool_model(o.memory_pool@).filter(
            key_not_in(keys_of(b.transactions.map_values(|t: TransactionModel| t.id))),
        )
        &&& forall|k: int| 0 <= k < out.len() ==> (#[trigger] out[k]).to@ != o.node_address@ && is_inv(
            out[k].message,
            InvKind::Block,
            seq![b.hash],
            o.node_address@,
        )
        &&& forall|j: int| 0 <= j < o.known_nodes@.len() && o.known_nodes@[j]@ != o.node_address@ ==> exists|k: int|
            0 <= k < out.len() && (#[trigger] out[k]).to@ == (#[trigger] o.known_nodes@[j])@
    }
}

/// Mines the pool: the transactions that verify against the chain, with a
/// fresh coinbase to the miner appended, are sealed in a block on the tip;
/// the index is rebuilt, the mined transactions leave the pool, and the new
/// block is announced to every known peer but this node. With no valid
/// transaction nothing changes; on failure the chain, index and pool are
/// left as they were.
pub fn mine_tx(net: &mut Network, utxo: &mut UTXOSet) -> (r: Result<Vec<Outgoing>, Error>)
    requires
        old(utxo).chain.wf(),
    ensures
        final(utxo).chain.wf(),
        mined(*old(net), *final(net), *old(utxo), *final(utxo), r),
{
    let mut txs = valid_pool_transactions(net, utxo);
    assert(txs_model(txs@).len() == pool_model(net.memory_pool@).filter(entry_verifies(utxo.chain.chain_txs())).len());
    if txs.len() == 0 {
        return Ok(Vec::new());
    }
    let ghost valid = txs_model(txs@);
    let coinbase = Transaction::coinbase_tx(net.mine_address.as_str())?;
    let ghost cb = coinbase@;
    txs.push(coinbase);
    let ghost all = txs_model(txs@);
    assert(all.subrange(0, valid.len() as int) =~= valid);
    let block = utxo.chain.mine_block(txs)?;
    proof {
        crate::chain::lemma_index_of_hash(utxo.chain.blocks_view(), block@.hash);
    }
    let ghost bs = utxo.chain.blocks_view();
    assert(bs[bs.len() - 1] == block@);
    assert(block@.transactions.last() == cb);
    utxo.reindex();
    let mut ids: Vec<Vec<u8>> = Vec::new();
    let mut i: usize = 0;
    while i < block.transactions.len()
        invariant
            i <= block.transactions@.len(),
            ids@.len() == i,
            forall|q: int| 0 <= q < i ==> (#[trigger] ids@[q])@ == block@.transactions[q].id,
        decreases block.transactions@.len() - i,
    {
        ids.push(copy_bytes(&block.transactions[i].id));
        i = i + 1;
    }
    assert(hashes_model(ids@) =~= block@.transactions.map_values(|t: TransactionModel| t.id));
    net.pool_remove_all(&ids);
    let hashes = vec![copy_bytes(&block.hash)];
    let self_address = copy_string(&net.node_address);
    assert(hashes_model(hashes@) =~= seq![block@.hash]);
    Ok(announce(net, InvKind::Block, &hashes, &self_address))
}

/// Transaction: file it in the pool. The central node relays it to every
/// known peer but itself and the sender; another node with a miner address
/// mines the pool as soon as it holds one transaction.
pub fn handle_tx(net: &mut Network, utxo: &mut UTXOSet, addr_from: &String, tx: &Transaction) -> (r: Result<Vec<Outgoing>, Error>)
    requires
        old(utxo).chain.wf(),
    ensures
        final(utxo).chain.wf(),
        tx_handled(*old(net), *final(net), *old(utxo), *final(utxo), *addr_from, *tx, r),
{
    net.pool_insert(tx.duplicate());
    proof {
        lemma_index_of_key(pool_model(old(net).memory_pool@), hex_text(tx@.id));
    }
    assert(pool_model(net.memory_pool@).len() == net.memory_pool@.len());
    assert(net.memory_pool@.len() >= 1);
    if net.node_address == net.central_address {
        let ids = vec![copy_bytes(&tx.id)];
        assert(hashes_model(ids@) =~= seq![tx@.id]);
        return Ok(announce(net, InvKind::Tx, &ids, addr_from));
    }
    if net.memory_pool.len() >= 1 && !net.mine_address.as_str().is_empty() {
        let ghost mid = *net;
        let r = mine_tx(net, utxo);
        assert(mined(mid, *net, *old(utxo), *utxo, r));
        return r;
    }
    Ok(Vec::new())
}

/// Handles one received message by its handler, with that handler's
/// guarantees.
pub fn handle_message(net: &mut Network, utxo: &mut UTXOSet, message: Message) -> (r: Result<Vec<Outgoing>, Error>)
    requires
        old(utxo).chain.wf(),
    ensures
        final(utxo).chain.wf(),
        match message {
            Message::Version { version: _, best_height, addr_from } => r is Ok && *final(utxo) == *old(utxo)
                && version_handled(*old(net), *final(net), *old(utxo), *old(utxo), best_height, addr_from, r->Ok_0),
            Message::GetBlocks { addr_from } => r is Ok && *final(utxo) == *old(utxo) && *final(net) == *old(net)
                && get_blocks_handled(*old(net), *old(net), *old(utxo), *old(utxo), addr_from, r->Ok_0),
            Message::Inv { addr_from, kind, items } => r is Ok && *final(utxo) == *old(utxo) && inv_handled(
                *old(net),
                *final(net),
                *old(utxo),
                *old(utxo),
                addr_from,
                kind,
                items,
                r->Ok_0,
            ),
            Message::GetData { addr_from, kind, id } => *final(utxo) == *old(utxo) && *final(net) == *old(net)
                && get_data_handled(*old(net), *old(net), *old(utxo), *old(utxo), addr_from, kind, id, r),
            Message::Block { addr_from, block } => block_handled(*old(net), *final(net), *old(utxo), *final(utxo), addr_from, block, r),
            Message::Transaction { addr_from, tx } => tx_handled(*old(net), *final(net), *old(utxo), *final(utxo), addr_from, tx, r),
        },
{
    match message {
        Message::Version { version: _, best_height, addr_from } => Ok(handle_version(net, utxo, best_height, &addr_from)),
        Message::GetBlocks { addr_from } => Ok(handle_get_blocks(net, utxo, &addr_from)),
        Message::Inv { addr_from, kind, items } => Ok(handle_inv(net, &addr_from, kind, items)),
        Message::GetData { addr_from, kind, id } => handle_get_data(net, utxo, &addr_from, kind, &id),
        Message::Block { addr_from, block } => handle_block(net, utxo, &addr_from, &block),
        Message::Transaction { addr_from, tx } => handle_tx(net, utxo, &addr_from, &tx),
    }
}

} // verus!
