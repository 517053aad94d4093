//! The two hashes: BLAKE3 for local verification, MD5 for the server's checksum.

use md5::{Digest, Md5};
use vstd::prelude::*;

verus! {

/// The state of a BLAKE3 hash.
#[verifier::external_type_specification]
#[verifier::external_body]
pub struct ExHasher(blake3::Hasher);

/// The bytes that a BLAKE3 state has been fed.
pub uninterp spec fn blake3_fed(h: blake3::Hasher) -> Seq<u8>;

/// The BLAKE3 hash of some bytes in lower-case hexadecimal.
pub uninterp spec fn blake3_hex(bytes: Seq<u8>) -> Seq<char>;

/// A lower-case hexadecimal digit.
pub open spec fn is_hex(c: char) -> bool {
    '0' <= c <= '9' || 'a' <= c <= 'f'
}

/// `blake3::Hasher::new`: a state that has been fed nothing.
#[verifier::external_body]
fn blake3_new() -> (r: blake3::Hasher)
    ensures
        blake3_fed(r) == Seq::<u8>::empty(),
{
    blake3::Hasher::new()
}

/// `blake3::Hasher::update` feeds the bytes to the state.
#[verifier::external_body]
fn blake3_update(h: &mut blake3::Hasher, bytes: &[u8])
    ensures
        blake3_fed(*final(h)) == blake3_fed(*old(h)) + bytes@,
{
    h.update(bytes);
}

/// `blake3::Hasher::finalize` and `Hash::to_hex`: the hash of the bytes fed, in
/// 64 lower-case hexadecimal digits. Which digits is a function of the bytes,
/// named `blake3_hex`.
#[verifier::external_body]
fn blake3_finalize(h: &blake3::Hasher) -> (r: String)
    ensures
        r@ == blake3_hex(blake3_fed(*h)),
        r@.len() == 64,
        forall|i: int| 0 <= i < 64 ==> is_hex(#[trigger] r@[i]),
{
    h.finalize().to_hex().to_string()
}

/// A BLAKE3 hash that is fed piece by piece.
pub struct Blake3Stream {
    inner: blake3::Hasher,
    total: u64,
}

impl Blake3Stream {
    /// The bytes that were fed.
    pub closed spec fn fed(self) -> Seq<u8> {
        blake3_fed(self.inner)
    }

    /// The count starts at zero and goes with what is fed.
    pub closed spec fn counted(self) -> nat {
        self.total as nat
    }

    /// A hash of nothing so far.
    pub fn new() -> (r: Self)
        ensures
            r.fed() == Seq::<u8>::empty(),
            r.counted() == 0,
    {
        Blake3Stream { inner: blake3_new(), total: 0 }
    }

    /// Feeds a piece, and returns how many bytes were fed in all.
    pub fn update(&mut self, bytes: &[u8]) -> (r: u64)
        requires
            old(self).counted() + bytes@.len() <= u64::MAX,
        ensures
            final(self).fed() == old(self).fed() + bytes@,
            final(self).counted() == old(self).counted() + bytes@.len(),
            r == final(self).counted(),
    {
        blake3_update(&mut self.inner, bytes);
        self.total = self.total + bytes.len() as u64;
        self.total
    }

    /// How many bytes were fed.
    pub fn len(&self) -> (r: u64)
        ensures
            r == self.counted(),
    {
        self.total
    }

    /// The hash of what was fed.
    pub fn hex(&self) -> (r: String)
        ensures
            r@ == blake3_hex(self.fed()),
            r@.len() == 64,
            forall|i: int| 0 <= i < 64 ==> is_hex(#[trigger] r@[i]),
    {
        blake3_finalize(&self.inner)
    }
}

/// The BLAKE3 hash of `head` and `tail`, one behind the other.
pub fn blake3_of_two(head: &[u8], tail: &[u8]) -> (r: String)
    ensures
        r@ == blake3_hex(head@ + tail@),
        r@.len() == 64,
        forall|i: int| 0 <= i < 64 ==> is_hex(#[trigger] r@[i]),
{
    let mut h = blake3_new();
    blake3_update(&mut h, head);
    blake3_update(&mut h, tail);
    assert(Seq::<u8>::empty() + head@ + tail@ =~= head@ + tail@);
    blake3_finalize(&h)
}

/// The state of an MD5 hash. The declaration of `md5::Md5` itself is out of the
/// verifier's reach: it is a generic type over traits of the digest crate.
#[verifier::external_body]
pub struct Md5State {
    inner: Md5,
}

/// The bytes that an MD5 state has been fed.
pub uninterp spec fn md5_fed(h: Md5State) -> Seq<u8>;

/// The MD5 hash of some bytes in lower-case hexadecimal.
pub uninterp spec fn md5_hex(bytes: Seq<u8>) -> Seq<char>;

/// `Md5::new`: a state that has been fed nothing.
#[verifier::external_body]
fn md5_new() -> (r: Md5State)
    ensures
        md5_fed(r) == Seq::<u8>::empty(),
{
    Md5State { inner: Md5::new() }
}

/// `Md5::update` feeds the bytes to the state.
#[verifier::external_body]
fn md5_update(h: &mut Md5State, bytes: &[u8])
    ensures
        md5_fed(*final(h)) == md5_fed(*old(h)) + bytes@,
{
    h.inner.update(bytes);
}

/// `Md5::finalize` written by `hex::encode`: 32 lower-case hexadecimal digits.
/// Which digits is a function of the bytes fed, named `md5_hex`.
#[verifier::external_body]
fn md5_finalize(h: Md5State) -> (r: String)
    ensures
        r@ == md5_hex(md5_fed(h)),
        r@.len() == 32,
        forall|i: int| 0 <= i < 32 ==> is_hex(#[trigger] r@[i]),
{
    hex::encode(h.inner.finalize())
}

/// An MD5 hash that is fed piece by piece.
pub struct Md5Stream {
    state: Md5State,
}

impl Md5Stream {
    /// The bytes that were fed.
    pub closed spec fn fed(self) -> Seq<u8> {
        md5_fed(self.state)
    }

    /// A hash of nothing so far.
    pub fn new() -> (r: Self)
        ensures
            r.fed() == Seq::<u8>::empty(),
    {
        Md5Stream { state: md5_new() }
    }

    /// Feeds a piece.
    pub fn update(&mut self, bytes: &[u8])
        ensures
            final(self).fed() == old(self).fed() + bytes@,
    {
        md5_update(&mut self.state, bytes);
    }

    /// The hash of what was fed.
    pub fn hex(self) -> (r: String)
        ensures
            r@ == md5_hex(self.fed()),
            r@.len() == 32,
            forall|i: int| 0 <= i < 32 ==> is_hex(#[trigger] r@[i]),
    {
        md5_finalize(self.state)
    }
}

/// The MD5 hash of a file's content in lower-case hexadecimal.
pub fn md5_hex_of(content: &[u8]) -> (r: String)
    ensures
        r@ == md5_hex(content@),
        r@.len() == 32,
        forall|i: int| 0 <= i < 32 ==> is_hex(#[trigger] r@[i]),
{
    let mut h = Md5Stream::new();
    h.update(content);
    assert(h.fed() =~= content@);
    h.hex()
}

} // verus!
