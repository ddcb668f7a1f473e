//! Addresses and key pairs. An address is the base58 text of a version byte
//! (0x00), the public-key hash RIPEMD160(SHA256(public key)) and a 4-byte
//! checksum, the head of SHA256(SHA256(version ‖ hash)).
use crate::crypto::{
    base58_decode, base58_decoded, base58_encode, base58_of, ecdsa_accepts, ecdsa_sign,
    ecdsa_signature_of, new_secret_key, public_key_from_secret, public_key_of, ripemd160, secret_valid,
    ripemd160_of, sha256, sha256_of,
};
use crate::error::Error;
use vstd::prelude::*;

verus! {

/// The number of checksum bytes at the end of a decoded address.
pub const CHECKSUM_LENGTH: usize = 4;

/// The version byte of an address.
pub const ADDRESS_VERSION: u8 = 0;

/// The public-key hash of a public key.
pub open spec fn key_hash_of(public_key: Seq<u8>) -> Seq<u8> {
    ripemd160_of(sha256_of(public_key))
}

/// The checksum of an address payload.
pub open spec fn checksum_of(payload: Seq<u8>) -> Seq<u8> {
    let d = sha256_of(sha256_of(payload));
    seq![d[0], d[1], d[2], d[3]]
}

/// The bytes that an address encodes for a public-key hash.
pub open spec fn address_bytes(key_hash: Seq<u8>) -> Seq<u8> {
    seq![ADDRESS_VERSION] + key_hash + checksum_of(seq![ADDRESS_VERSION] + key_hash)
}

/// The public-key hash that a decoded address holds, between its version byte
/// and its checksum; `None` where it is too short to hold both.
pub open spec fn key_hash_in(decoded: Seq<u8>) -> Option<Seq<u8>> {
    if decoded.len() >= 5 {
        Some(decoded.subrange(1, decoded.len() - 4))
    } else {
        None
    }
}

/// Whether a decoded address ends in the checksum of what precedes it.
pub open spec fn checksum_holds(decoded: Seq<u8>) -> bool {
    decoded.len() >= 5 && decoded.subrange(decoded.len() - 4, decoded.len() as int)
        == checksum_of(decoded.subrange(0, decoded.len() - 4))
}

/// The public-key hash that an address text names, if it decodes and is long
/// enough.
pub open spec fn address_key_hash(address: Seq<char>) -> Option<Seq<u8>> {
    match base58_decoded(address) {
        Some(d) => key_hash_in(d),
        None => None,
    }
}

/// Whether an address text passes its checksum; `None` where it is no base58.
pub open spec fn address_check(address: Seq<char>) -> Option<bool> {
    match base58_decoded(address) {
        Some(d) => Some(checksum_holds(d)),
        None => None,
    }
}

/// The checksum of an address payload.
pub fn checksum(payload: &[u8]) -> (r: Vec<u8>)
    ensures
        r@ == checksum_of(payload@),
{
    let first = sha256(payload);
    let second = sha256(&first);
    let mut r: Vec<u8> = Vec::new();
    assert(checksum_of(payload@) =~= second@.take(4));
    let mut i: usize = 0;
    while i < CHECKSUM_LENGTH
        invariant
            i <= 4,
            second@.len() == 32,
            r@ == second@.take(i as int),
            checksum_of(payload@) == second@.take(4),
        decreases 4 - i,
    {
        r.push(second[i]);
        i = i + 1;
        assert(r@ =~= second@.take(i as int));
    }
    r
}

/// The public-key hash held by an address: it is decoded, and its version
/// byte and checksum are stripped.
pub fn public_key_hash_from_address(address: &str) -> (r: Result<Vec<u8>, Error>)
    ensures
        r matches Ok(h) ==> address_key_hash(address@) == Some(h@),
        r is Err ==> address_key_hash(address@) is None,
        r == Err::<Vec<u8>, Error>(Error::Base58) <==> base58_decoded(address@) is None,
        r is Err ==> r == Err::<Vec<u8>, Error>(Error::Base58) || r == Err::<Vec<u8>, Error>(Error::InvalidAddress),
{
    let decoded = match base58_decode(address) {
        Some(d) => d,
        None => return Err(Error::Base58),
    };
    if decoded.len() < 1 + CHECKSUM_LENGTH {
        return Err(Error::InvalidAddress);
    }
    let end = decoded.len() - CHECKSUM_LENGTH;
    let mut h: Vec<u8> = Vec::new();
    let mut i: usize = 1;
    while i < end
        invariant
            1 <= i <= end,
            end == decoded@.len() - 4,
            h@ == decoded@.subrange(1, i as int),
        decreases end - i,
    {
        h.push(decoded[i]);
        i = i + 1;
        assert(h@ =~= decoded@.subrange(1, i as int));
    }
    Ok(h)
}

/// Whether an address's checksum matches what it holds; `Ok(false)` for an
/// address too short to hold a version byte and a checksum.
pub fn validate_address(address: &str) -> (r: Result<bool, Error>)
    ensures
        r matches Ok(b) ==> address_check(address@) == Some(b),
        r is Err <==> base58_decoded(address@) is None,
        r is Err ==> r == Err::<bool, Error>(Error::Base58),
{
    let decoded = match base58_decode(address) {
        Some(d) => d,
        None => return Err(Error::Base58),
    };
    if decoded.len() < 1 + CHECKSUM_LENGTH {
        return Ok(false);
    }
    let n = decoded.len() - CHECKSUM_LENGTH;
    let mut payload: Vec<u8> = Vec::new();
    let mut actual: Vec<u8> = Vec::new();
    let mut i: usize = 0;
    while i < decoded.len()
        invariant
            i <= decoded@.len(),
            n == decoded@.len() - 4,
            i <= n ==> payload@ == decoded@.subrange(0, i as int) && actual@.len() == 0,
            i > n ==> payload@ == decoded@.subrange(0, n as int) && actual@ == decoded@.subrange(n as int, i as int),
        decreases decoded@.len() - i,
    {
        if i < n {
            payload.push(decoded[i]);
        } else {
            actual.push(decoded[i]);
        }
        i = i + 1;
        assert(payload@ =~= decoded@.subrange(0, if i <= n { i as int } else { n as int }));
        assert(i > n ==> actual@ =~= decoded@.subrange(n as int, i as int));
    }
    let target = checksum(&payload);
    Ok(crate::codec::bytes_equal(&actual, &target))
}

/// The address of a public key.
pub fn address_of_public_key(public_key: &[u8]) -> (r: String)
    ensures
        r@ == base58_of(address_bytes(key_hash_of(public_key@))),
        base58_decoded(r@) == Some(address_bytes(key_hash_of(public_key@))),
{
    let hash = ripemd160(&sha256(public_key));
    let mut full: Vec<u8> = Vec::new();
    full.push(ADDRESS_VERSION);
    crate::codec::put_raw(&mut full, &hash);
    let sum = checksum(&full);
    crate::codec::put_raw(&mut full, &sum);
    assert(full@ =~= address_bytes(key_hash_of(public_key@)));
    base58_encode(&full)
}

/// The address encoding round-trips: an address made from a public key
/// passes its checksum, and the public-key hash read back from it is the
/// RIPEMD160(SHA256(·)) of the key.
pub proof fn address_round_trip(public_key: Seq<u8>, address: Seq<char>)
    requires
        base58_decoded(address) == Some(address_bytes(key_hash_of(public_key))),
    ensures
        base58_decoded(address) matches Some(d) && checksum_holds(d),
        address_key_hash(address) == Some(key_hash_of(public_key)),
{
    let h = key_hash_of(public_key);
    let d = address_bytes(h);
    assert(d.subrange(0, d.len() - 4) =~= seq![ADDRESS_VERSION] + h);
    assert(d.subrange(1, d.len() - 4) =~= h);
    assert(d.subrange(d.len() - 4, d.len() as int) =~= checksum_of(seq![ADDRESS_VERSION] + h));
}

} // verus!

verus! {

/// A secp256k1 key pair.
#[derive(Debug, Clone)]
pub struct Wallet {
    secret_key: Vec<u8>,
    public_key: Vec<u8>,
}

impl Wallet {
    /// The public key is that of the secret key.
    pub open spec fn wf(&self) -> bool {
        self.public_view() == public_key_of(self.secret_view()) && secret_valid(self.secret_view())
    }

    pub closed spec fn secret_view(&self) -> Seq<u8> {
        self.secret_key@
    }

    pub closed spec fn public_view(&self) -> Seq<u8> {
        self.public_key@
    }

    /// A wallet with a fresh secret key.
    pub fn new() -> (r: Result<Self, Error>)
        ensures
            r matches Ok(w) ==> w.wf() && w.public_view() == public_key_of(w.secret_view()),
            r is Ok,
    {
        Wallet::from_secret_key(new_secret_key())
    }

    /// The wallet of a secret key; `Error::Key` where the bytes are no valid
    /// secret key.
    pub fn from_secret_key(secret_key: Vec<u8>) -> (r: Result<Self, Error>)
        ensures
            r matches Ok(w) ==> w.secret_view() == secret_key@ && w.public_view() == public_key_of(secret_key@) && w.wf(),
            r is Err ==> r == Err::<Wallet, Error>(Error::Key),
            r is Ok <==> secret_valid(secret_key@),
    {
        match public_key_from_secret(&secret_key) {
            Some(public_key) => Ok(Wallet { secret_key, public_key }),
            None => Err(Error::Key),
        }
    }

    /// The secret key's bytes.
    pub fn secret_key(&self) -> (r: &Vec<u8>)
        ensures
            r@ == self.secret_view(),
    {
        &self.secret_key
    }

    /// The compressed public key.
    pub fn public_key(&self) -> (r: &Vec<u8>)
        ensures
            r@ == self.public_view(),
    {
        &self.public_key
    }

    /// The wallet's address.
    pub fn address(&self) -> (r: String)
        ensures
            r@ == base58_of(address_bytes(key_hash_of(self.public_view()))),
            base58_decoded(r@) == Some(address_bytes(key_hash_of(self.public_view()))),
    {
        address_of_public_key(&self.public_key)
    }

    /// The DER signature over SHA256(`tx_id`).
    pub fn sign(&self, tx_id: &[u8]) -> (r: Result<Vec<u8>, Error>)
        ensures
            r matches Ok(sig) ==> sig@ == ecdsa_signature_of(self.secret_view(), sha256_of(tx_id@))
                && ecdsa_accepts(public_key_of(self.secret_view()), sha256_of(tx_id@), sig@),
            r is Err ==> r == Err::<Vec<u8>, Error>(Error::Signature),
            secret_valid(self.secret_view()) ==> r is Ok,
    {
        let digest = sha256(tx_id);
        match ecdsa_sign(&self.secret_key, &digest) {
            Some(sig) => Ok(sig),
            None => Err(Error::Signature),
        }
    }
}

/// The key pairs of one node, by address.
pub struct Wallets {
    wallets: Vec<(String, Wallet)>,
}

impl Wallets {
    /// Every entry is filed under its own address, once, and is well formed.
    pub open spec fn wf(&self) -> bool {
        &&& forall|i: int| 0 <= i < self.entries().len() ==> (#[trigger] self.entries()[i]).1.wf()
        &&& forall|i: int, j: int|
            0 <= i < j < self.entries().len() ==> (#[trigger] self.entries()[i]).0@ != (#[trigger] self.entries()[j]).0@
    }

    pub closed spec fn entries(&self) -> Seq<(String, Wallet)> {
        self.wallets@
    }

    /// The addresses held.
    pub open spec fn address_set(&self) -> Set<Seq<char>> {
        Set::new(|a: Seq<char>| exists|i: int| 0 <= i < self.entries().len() && (#[trigger] self.entries()[i]).0@ == a)
    }

    /// No wallets.
    pub fn new() -> (r: Self)
        ensures
            r.wf(),
            r.entries().len() == 0,
    {
        Wallets { wallets: Vec::new() }
    }

    fn find(&self, address: &str) -> (r: Option<usize>)
        ensures
            r matches Some(i) ==> i < self.entries().len() && self.entries()[i as int].0@ == address@,
            r is None ==> forall|i: int| 0 <= i < self.entries().len() ==> (#[trigger] self.entries()[i]).0@ != address@,
    {
        let a = address.to_owned();
        let mut i: usize = 0;
        while i < self.wallets.len()
            invariant
                i <= self.entries().len(),
                a@ == address@,
                forall|j: int| 0 <= j < i ==> (#[trigger] self.entries()[j]).0@ != address@,
            decreases self.entries().len() - i,
        {
            if self.wallets[i].0 == a {
                return Some(i);
            }
            i = i + 1;
        }
        None
    }

    /// Files `wallet` under its address, replacing an entry already there.
    pub fn insert(&mut self, wallet: Wallet) -> (r: String)
        requires
            old(self).wf(),
            wallet.wf(),
        ensures
            final(self).wf(),
            r@ == base58_of(address_bytes(key_hash_of(wallet.public_view()))),
            final(self).address_set() == old(self).address_set().insert(r@),
    {
        let address = wallet.address();
        let ghost before = self.entries();
        match self.find(address.as_str()) {
            Some(i) => {
                self.wallets.set(i, (address.clone(), wallet));
                assert forall|j: int| 0 <= j < before.len() implies (#[trigger] self.entries()[j]).0@
                    == before[j].0@ by {}
                assert(before[i as int].0@ == address@);
                assert forall|a: Seq<char>| #[trigger] self.address_set().contains(a)
                    == old(self).address_set().insert(address@).contains(a) by {
                    if old(self).address_set().contains(a) {
                        let k = choose|k: int| 0 <= k < before.len() && (#[trigger] before[k]).0@ == a;
                        assert(self.entries()[k].0@ == a);
                    }
                    if self.address_set().contains(a) {
                        let k = choose|k: int| 0 <= k < self.entries().len() && (#[trigger] self.entries()[k]).0@ == a;
                        assert(before[k].0@ == a);
                    }
                    if a == address@ {
                        assert(self.entries()[i as int].0@ == a);
                    }
                }
                assert(self.address_set() =~= old(self).address_set().insert(address@));
            }
            None => {
                self.wallets.push((address.clone(), wallet));
                assert(self.entries()[before.len() as int].0@ == address@);
                assert forall|a: Seq<char>| #[trigger] self.address_set().contains(a)
                    == old(self).address_set().insert(address@).contains(a) by {
                    if old(self).address_set().contains(a) {
                        let k = choose|k: int| 0 <= k < before.len() && (#[trigger] before[k]).0@ == a;
                        assert(self.entries()[k] == before[k]);
                    }
                    if self.address_set().contains(a) && a != address@ {
                        let k = choose|k: int| 0 <= k < self.entries().len() && (#[trigger] self.entries()[k]).0@ == a;
                        assert(self.entries()[k] == before[k]);
                    }
                }
                assert(self.address_set() =~= old(self).address_set().insert(address@));
            }
        }
        address
    }

    /// A fresh key pair, filed under its address, which is returned.
    pub fn add_wallet(&mut self) -> (r: Result<String, Error>)
        requires
            old(self).wf(),
        ensures
            final(self).wf(),
            r matches Ok(a) ==> final(self).address_set() == old(self).address_set().insert(a@),
            r is Err ==> final(self).address_set() == old(self).address_set(),
    {
        let wallet = Wallet::new()?;
        Ok(self.insert(wallet))
    }

    /// The wallet filed under `address`: `Error::InvalidAddress` where the
    /// address fails its checksum, `Error::WalletNotFound` where none is filed.
    pub fn get_wallet(&self, address: &str) -> (r: Result<&Wallet, Error>)
        requires
            self.wf(),
        ensures
            r matches Ok(w) ==> w.wf() && self.address_set().contains(address@) && exists|i: int|
                0 <= i < self.entries().len() && self.entries()[i].0@ == address@ && self.entries()[i].1 == *w,
            r == Err::<&Wallet, Error>(Error::Base58) <==> base58_decoded(address@) is None,
            r == Err::<&Wallet, Error>(Error::InvalidAddress) <==> address_check(address@) == Some(false),
            r == Err::<&Wallet, Error>(Error::WalletNotFound) <==> address_check(address@) == Some(true)
                && !self.address_set().contains(address@),
            r is Err ==> r == Err::<&Wallet, Error>(Error::Base58) || r == Err::<&Wallet, Error>(Error::InvalidAddress)
                || r == Err::<&Wallet, Error>(Error::WalletNotFound),
    {
        if !validate_address(address)? {
            return Err(Error::InvalidAddress);
        }
        match self.find(address) {
            Some(i) => {
                assert(self.address_set().contains(address@));
                Ok(&self.wallets[i].1)
            },
            None => Err(Error::WalletNotFound),
        }
    }

    /// The addresses held, in the order they were filed.
    pub fn list_addresses(&self) -> (r: Vec<String>)
        ensures
            r@.len() == self.entries().len(),
            forall|i: int| 0 <= i < r@.len() ==> (#[trigger] r@[i])@ == self.entries()[i].0@,
    {
        let mut r: Vec<String> = Vec::new();
        let mut i: usize = 0;
        while i < self.wallets.len()
            invariant
                i <= self.entries().len(),
                r@.len() == i,
                forall|j: int| 0 <= j < i ==> (#[trigger] r@[j])@ == self.entries()[j].0@,
            decreases self.entries().len() - i,
        {
            r.push(self.wallets[i].0.clone());
            i = i + 1;
        }
        r
    }

    /// The signature over SHA256(`tx_id`) by the key filed under `address`.
    pub fn sign_tx(&self, tx_id: &[u8], address: &str) -> (r: Result<Vec<u8>, Error>)
        requires
            self.wf(),
        ensures
            r matches Ok(sig) ==> exists|i: int|
                0 <= i < self.entries().len() && (#[trigger] self.entries()[i]).0@ == address@ && sig@
                    == ecdsa_signature_of(self.entries()[i].1.secret_view(), sha256_of(tx_id@)),
            r is Err ==> r == Err::<Vec<u8>, Error>(Error::Base58) || r == Err::<Vec<u8>, Error>(Error::InvalidAddress)
                || r == Err::<Vec<u8>, Error>(Error::WalletNotFound) || r == Err::<Vec<u8>, Error>(Error::Signature),
            address_check(address@) == Some(true) && !self.address_set().contains(address@) ==> r == Err::<Vec<u8>, Error>(
                Error::WalletNotFound,
            ),
            address_check(address@) == Some(true) && self.address_set().contains(address@) ==> r is Ok,
    {
        let w = self.get_wallet(address)?;
        w.sign(tx_id)
    }
}

} // verus!
