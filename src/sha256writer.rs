//! Incremental SHA-256 over the bytes of a download, as lowercase hex.

use vstd::prelude::*;

use sha2::Digest;

verus! {

/// The state of a SHA-256 computation of the `sha2` crate. Its type is a
/// generic instantiation that cannot be declared, so it is held here.
#[verifier::external_body]
pub struct Sha256State {
    hasher: sha2::Sha256,
}

/// The bytes fed to a SHA-256 computation so far.
pub uninterp spec fn absorbed(h: Sha256State) -> Seq<u8>;

/// The SHA-256 digest of `data`.
pub uninterp spec fn sha256_of(data: Seq<u8>) -> Seq<u8>;

/// Relies on sha2::Sha256::new: a computation that has absorbed nothing.
#[verifier::external_body]
fn sha256_start() -> (h: Sha256State)
    ensures
        absorbed(h) == Seq::<u8>::empty(),
{
    Sha256State { hasher: sha2::Sha256::new() }
}

/// Relies on sha2::Sha256::update: absorbs `data` after what came before.
#[verifier::external_body]
fn sha256_update(h: &mut Sha256State, data: &[u8])
    ensures
        absorbed(*final(h)) == absorbed(*old(h)) + data@,
{
    h.hasher.update(data)
}

/// Relies on sha2::Sha256::finalize: the 32-byte digest of everything absorbed.
#[verifier::external_body]
fn sha256_finish(h: Sha256State) -> (r: Vec<u8>)
    ensures
        r@ == sha256_of(absorbed(h)),
        r@.len() == 32,
{
    h.hasher.finalize().to_vec()
}

/// The lowercase hexadecimal digit of `n` (below 16).
pub open spec fn hex_digit(n: int) -> char {
    "0123456789abcdef"@[n]
}

/// Lowercase hexadecimal text of `b`: two digits per byte, high nibble first.
pub open spec fn hex_lower(b: Seq<u8>) -> Seq<char>
    decreases b.len(),
{
    if b.len() == 0 {
        Seq::empty()
    } else {
        hex_lower(b.drop_last()) + seq![hex_digit(b.last() as int / 16), hex_digit(b.last() as int % 16)]
    }
}

/// Relies on hex::encode: each byte as two lowercase hexadecimal digits, in order.
#[verifier::external_body]
fn hex_encode(data: &[u8]) -> (r: String)
    ensures
        r@ == hex_lower(data@),
{
    hex::encode(data)
}

/// A sink that hashes what passes through it on the way to `writer`.
pub struct Sha256Writer<W> {
    writer: W,
    hasher: Sha256State,
}

impl<W> Sha256Writer<W> {
    /// The bytes hashed so far.
    pub closed spec fn written(&self) -> Seq<u8> {
        absorbed(self.hasher)
    }

    /// The wrapped writer.
    pub closed spec fn inner(&self) -> W {
        self.writer
    }

    /// Wraps `writer`, with nothing hashed yet.
    pub fn new(writer: W) -> (r: Self)
        ensures
            r.written() == Seq::<u8>::empty(),
            r.inner() == writer,
    {
        Sha256Writer { writer, hasher: sha256_start() }
    }

    /// Hashes `buf`, the next bytes passed to the writer.
    pub fn update(&mut self, buf: &[u8])
        ensures
            final(self).written() == old(self).written() + buf@,
            final(self).inner() == old(self).inner(),
    {
        sha256_update(&mut self.hasher, buf);
    }

    /// The wrapped writer, to pass bytes to it.
    pub fn get_mut(&mut self) -> (r: &mut W)
        ensures
            *r == old(self).inner(),
            final(self).inner() == *final(r),
            final(self).written() == old(self).written(),
    {
        &mut self.writer
    }

    /// The SHA-256 digest, in lowercase hex, of all bytes hashed.
    pub fn digest(self) -> (r: String)
        ensures
            r@ == hex_lower(sha256_of(self.written())),
    {
        let d = sha256_finish(self.hasher);
        hex_encode(d.as_slice())
    }
}

} // verus!
