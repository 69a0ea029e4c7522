//! Checking the bytes of a download against an expected digest.
use crate::downloader::decompress::joined;
use crate::downloader::digest::{
    md5_digest, md5_finalize, md5_new, md5_taken, md5_update, sha1_digest, sha1_finalize, sha1_new,
    sha1_taken, sha1_update, sha224_digest, sha224_finalize, sha224_new, sha224_taken,
    sha224_update, sha256_digest, sha256_finalize, sha256_new, sha256_taken, sha256_update,
    sha384_digest, sha384_finalize, sha384_new, sha384_taken, sha384_update, sha512_digest,
    sha512_finalize, sha512_new, sha512_taken, sha512_update,
};
use crate::downloader::text::{hex, to_hex};
use crate::error::ChecksumError;
use vstd::prelude::*;
use vstd::string::StringExecFns;
use vstd::string::StringSliceAdditionalSpecFns;

verus! {

/// The hash algorithms that a checksum can use.
#[derive(Debug, Clone, Copy, PartialEq, Eq, Structural)]
pub enum CsType {
    MD5,
    Sha1,
    Sha224,
    Sha256,
    Sha384,
    Sha512,
}

/// The algorithm whose digests are `size` hexadecimal digits long.
pub open spec fn algorithm_for(size: nat) -> Option<CsType> {
    if size == 32 {
        Some(CsType::MD5)
    } else if size == 40 {
        Some(CsType::Sha1)
    } else if size == 56 {
        Some(CsType::Sha224)
    } else if size == 64 {
        Some(CsType::Sha256)
    } else if size == 96 {
        Some(CsType::Sha384)
    } else if size == 128 {
        Some(CsType::Sha512)
    } else {
        None
    }
}

/// The digest of `data` under the algorithm `kind`.
pub open spec fn digest_of(kind: CsType, data: Seq<u8>) -> Seq<u8> {
    match kind {
        CsType::MD5 => md5_digest(data),
        CsType::Sha1 => sha1_digest(data),
        CsType::Sha224 => sha224_digest(data),
        CsType::Sha256 => sha256_digest(data),
        CsType::Sha384 => sha384_digest(data),
        CsType::Sha512 => sha512_digest(data),
    }
}

/// What a hasher has been given after the pieces `parts`, one by one, on top
/// of `taken`.
pub open spec fn fed(taken: Seq<u8>, parts: Seq<Seq<u8>>) -> Seq<u8>
    decreases parts.len(),
{
    if parts.len() == 0 {
        taken
    } else {
        fed(taken, parts.drop_last()) + parts.last()
    }
}

/// Feeding a hasher piece by piece comes to feeding it the pieces joined.
pub proof fn lemma_fed_joined(taken: Seq<u8>, parts: Seq<Seq<u8>>)
    ensures
        fed(taken, parts) == taken + joined(parts),
    decreases parts.len(),
{
    if parts.len() == 0 {
        assert(taken + joined(parts) =~= taken);
    } else {
        lemma_fed_joined(taken, parts.drop_last());
        assert(fed(taken, parts) =~= taken + joined(parts));
    }
}

/// Hashing a byte string in one go and hashing it split into any pieces give
/// the same digest, under every algorithm.
pub proof fn lemma_split_hashing(kind: CsType, whole: Seq<u8>, parts: Seq<Seq<u8>>)
    requires
        joined(parts) == whole,
    ensures
        digest_of(kind, fed(Seq::empty(), parts)) == digest_of(kind, fed(Seq::empty(), seq![whole])),
{
    lemma_fed_joined(Seq::empty(), parts);
    lemma_fed_joined(Seq::empty(), seq![whole]);
    assert(joined(seq![whole]) =~= whole) by {
        reveal_with_fuel(joined, 2);
    }
    assert(Seq::<u8>::empty() + whole =~= whole);
}

/// The running state of one of the hash algorithms.
pub enum Hasher {
    Md5(md5::Md5),
    Sha1(sha1::Sha1),
    Sha224(sha2::Sha224),
    Sha256(sha2::Sha256),
    Sha384(sha2::Sha384),
    Sha512(sha2::Sha512),
}

impl Hasher {
    /// The algorithm of this state.
    pub open spec fn kind(&self) -> CsType {
        match self {
            Hasher::Md5(_) => CsType::MD5,
            Hasher::Sha1(_) => CsType::Sha1,
            Hasher::Sha224(_) => CsType::Sha224,
            Hasher::Sha256(_) => CsType::Sha256,
            Hasher::Sha384(_) => CsType::Sha384,
            Hasher::Sha512(_) => CsType::Sha512,
        }
    }

    /// The bytes that the state has been given so far.
    pub open spec fn taken(&self) -> Seq<u8> {
        match self {
            Hasher::Md5(state) => md5_taken(*state),
            Hasher::Sha1(state) => sha1_taken(*state),
            Hasher::Sha224(state) => sha224_taken(*state),
            Hasher::Sha256(state) => sha256_taken(*state),
            Hasher::Sha384(state) => sha384_taken(*state),
            Hasher::Sha512(state) => sha512_taken(*state),
        }
    }

    /// Gives `data` to the state.
    pub fn update(&mut self, data: &[u8])
        ensures
            final(self).kind() == old(self).kind(),
            final(self).taken() == old(self).taken() + data@,
    {
        match self {
            Hasher::Md5(state) => md5_update(state, data),
            Hasher::Sha1(state) => sha1_update(state, data),
            Hasher::Sha224(state) => sha224_update(state, data),
            Hasher::Sha256(state) => sha256_update(state, data),
            Hasher::Sha384(state) => sha384_update(state, data),
            Hasher::Sha512(state) => sha512_update(state, data),
        }
    }

    /// The digest of what the state has been given, in lower-case
    /// hexadecimal.
    pub fn finalize(self) -> (r: String)
        ensures
            r@ == hex(digest_of(self.kind(), self.taken())),
    {
        let digest = match self {
            Hasher::Md5(state) => md5_finalize(state),
            Hasher::Sha1(state) => sha1_finalize(state),
            Hasher::Sha224(state) => sha224_finalize(state),
            Hasher::Sha256(state) => sha256_finalize(state),
            Hasher::Sha384(state) => sha384_finalize(state),
            Hasher::Sha512(state) => sha512_finalize(state),
        };
        to_hex(digest.as_slice())
    }
}

impl From<CsType> for Hasher {
    /// A fresh state of the algorithm `value`.
    fn from(value: CsType) -> (r: Self)
        ensures
            r.kind() == value,
            r.taken() == Seq::<u8>::empty(),
    {
        match value {
            CsType::MD5 => Hasher::Md5(md5_new()),
            CsType::Sha1 => Hasher::Sha1(sha1_new()),
            CsType::Sha224 => Hasher::Sha224(sha224_new()),
            CsType::Sha256 => Hasher::Sha256(sha256_new()),
            CsType::Sha384 => Hasher::Sha384(sha384_new()),
            CsType::Sha512 => Hasher::Sha512(sha512_new()),
        }
    }
}

impl vstd::std_specs::convert::FromSpecImpl<CsType> for Hasher {
    /// A running state cannot be written down as a value: what `from`
    /// returns is told by its own contract.
    open spec fn obeys_from_spec() -> bool {
        false
    }

    open spec fn from_spec(value: CsType) -> Self {
        arbitrary()
    }
}

/// An expected digest together with the state that hashes the data to hold
/// against it.
pub struct Checksum {
    hasher: Hasher,
    contents: String,
}

impl Checksum {
    /// The algorithm in use.
    pub closed spec fn kind(&self) -> CsType {
        self.hasher.kind()
    }

    /// The expected digest, as text.
    pub closed spec fn expected(&self) -> Seq<char> {
        self.contents@
    }

    /// The bytes hashed so far.
    pub closed spec fn taken(&self) -> Seq<u8> {
        self.hasher.taken()
    }

    /// Whether the bytes hashed so far, followed by `more`, have the expected
    /// digest.
    pub open spec fn matches_after(&self, more: Seq<u8>) -> bool {
        hex(digest_of(self.kind(), self.taken() + more)) == self.expected()
    }

    /// A checksum that expects `hash` under the algorithm `checksum_type`.
    pub fn new_inner(hash: &str, checksum_type: CsType) -> (r: Self)
        ensures
            r.kind() == checksum_type,
            r.expected() == hash@,
            r.taken() == Seq::<u8>::empty(),
    {
        Checksum { hasher: Hasher::from(checksum_type), contents: String::from_str(hash) }
    }

    /// A checksum that expects `hash`, under the algorithm whose digests
    /// have the length of `hash`. A length that belongs to no algorithm is
    /// refused with `UnrecognizedSize`.
    pub fn new(hash: &str) -> (r: Result<Self, ChecksumError>)
        ensures
            match algorithm_for(hash.spec_bytes().len()) {
                Some(kind) => r matches Ok(checksum) && checksum.kind() == kind
                    && checksum.expected() == hash@ && checksum.taken() == Seq::<u8>::empty(),
                None => r matches Err(ChecksumError::UnrecognizedSize),
            },
    {
        let checksum_type = match hash.as_bytes().len() {
            32 => CsType::MD5,
            40 => CsType::Sha1,
            56 => CsType::Sha224,
            64 => CsType::Sha256,
            96 => CsType::Sha384,
            128 => CsType::Sha512,
            _ => {
                return Err(ChecksumError::UnrecognizedSize);
            },
        };
        Ok(Self::new_inner(hash, checksum_type))
    }

    /// Hashes `data` after what was hashed before.
    pub fn update(&mut self, data: &[u8])
        ensures
            final(self).kind() == old(self).kind(),
            final(self).expected() == old(self).expected(),
            final(self).taken() == old(self).taken() + data@,
    {
        self.hasher.update(data);
    }

    /// Whether the digest of what was hashed, in lower-case hexadecimal, is
    /// the expected one, character for character.
    pub fn verify(self) -> (r: bool)
        ensures
            r == (hex(digest_of(self.kind(), self.taken())) == self.expected()),
    {
        let hash = self.hasher.finalize();
        hash == self.contents
    }
}

} // verus!
