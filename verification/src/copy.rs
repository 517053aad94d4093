//! A copy that is verified: hashed while it is read, and read back from disk.

use crate::error::{CoreError, Result};
use crate::hashing::{blake3_hex, Blake3Stream};
use crate::text::{opt_view, same_text};
use vstd::prelude::*;

verus! {

/// A copy that succeeded.
#[derive(Debug, PartialEq, Eq)]
pub struct CopyOutcome<S = String> {
    pub dest: S,
    pub bytes: u64,
    /// The hash of the bytes, if the copy was verified.
    pub hash: Option<S>,
}

impl View for CopyOutcome<String> {
    type V = CopyOutcome<Seq<char>>;

    open spec fn view(&self) -> CopyOutcome<Seq<char>> {
        CopyOutcome { dest: self.dest@, bytes: self.bytes, hash: opt_view(self.hash) }
    }
}

/// A copy on its way: the bytes read so far.
pub struct CopyStream {
    hash: Blake3Stream,
    verify: bool,
}

impl CopyStream {
    /// The bytes that were read from the source.
    pub closed spec fn read(self) -> Seq<u8> {
        self.hash.fed()
    }

    /// True if the copy is verified.
    pub closed spec fn verifies(self) -> bool {
        self.verify
    }

    /// The count of the bytes agrees with them.
    pub closed spec fn well_formed(self) -> bool {
        self.hash.counted() == self.hash.fed().len()
    }

    /// Begins a copy.
    pub fn begin(verify: bool) -> (r: CopyStream)
        ensures
            r.well_formed(),
            r.read() == Seq::<u8>::empty(),
            r.verifies() == verify,
    {
        CopyStream { hash: Blake3Stream::new(), verify }
    }

    /// Takes a piece that was read, and returns how many bytes were read in all.
    pub fn take(&mut self, bytes: &[u8]) -> (r: u64)
        requires
            old(self).well_formed(),
            old(self).read().len() + bytes@.len() <= u64::MAX,
        ensures
            final(self).well_formed(),
            final(self).read() == old(self).read() + bytes@,
            final(self).verifies() == old(self).verifies(),
            r == final(self).read().len(),
    {
        self.hash.update(bytes)
    }

    /// The copy once it stands at `dest`.
    pub fn finish(&self, dest: String) -> (r: CopyOutcome)
        requires
            self.well_formed(),
        ensures
            r@ == (CopyOutcome {
                dest: dest@,
                bytes: self.read().len() as u64,
                hash: if self.verifies() {
                    Some(blake3_hex(self.read()))
                } else {
                    None
                },
            }),
            r.bytes == self.read().len(),
    {
        CopyOutcome {
            dest,
            bytes: self.hash.len(),
            hash: if self.verify {
                Some(self.hash.hex())
            } else {
                None
            },
        }
    }
}

/// Compares the hash that was meant with the one that was read back from `path`.
/// Where `verify` is off nothing is compared. On a mismatch the file at `path` is
/// to be removed.
pub fn verify_dest_hash(path: &str, expected_hex: &str, got_hex: &str, verify: bool) -> (r: Result<
    (),
>)
    ensures
        match r {
            Ok(_) => !verify || got_hex@ == expected_hex@,
            Err(e) => verify && got_hex@ != expected_hex@ && e@ == CoreError::VerifyFailed(path@),
        },
{
    if !verify || same_text(got_hex, expected_hex) {
        Ok(())
    } else {
        Err(CoreError::VerifyFailed(path.to_owned()))
    }
}

/// The outcome of a copy whose destination was read back. A copy that is not
/// verified stands as it is; one that is verified fails unless the destination
/// hashes as the source did.
pub fn copy_verified(stream: &CopyStream, dest: String, read_back: &CopyStream) -> (r: Result<
    CopyOutcome,
>)
    requires
        stream.well_formed(),
    ensures
        match r {
            Ok(o) => {
                &&& o.bytes == stream.read().len()
                &&& o@.dest == dest@
                &&& o@.hash == (if stream.verifies() {
                    Some(blake3_hex(stream.read()))
                } else {
                    None
                })
                &&& stream.verifies() ==> blake3_hex(read_back.read()) == blake3_hex(stream.read())
            },
            Err(e) => {
                &&& stream.verifies()
                &&& blake3_hex(read_back.read()) != blake3_hex(stream.read())
                &&& e@ == CoreError::VerifyFailed(dest@)
            },
        },
{
    let got = read_back.hash.hex();
    let expected = stream.hash.hex();
    match verify_dest_hash(dest.as_str(), expected.as_str(), got.as_str(), stream.verify) {
        Ok(_) => Ok(stream.finish(dest)),
        Err(e) => Err(e),
    }
}

} // verus!
