//! The outside hash functions, each behind trusted functions.
//!
//! Nothing here is proved. A hasher is taken to stand for the bytes it has
//! been given, in order: a new one for none, and `update` for those it had
//! followed by the new ones. Its digest depends on those bytes alone.
use vstd::prelude::*;

verus! {

/// `md5::Md5`, the running state of a MD5 computation.
#[verifier::external_type_specification]
#[verifier::external_body]
pub struct ExMd5(md5::Md5);

/// The bytes that a `md5::Md5` has been given so far.
pub uninterp spec fn md5_taken(state: md5::Md5) -> Seq<u8>;

/// The MD5 digest of `data`, as `finalize` of a `md5::Md5` returns it.
pub uninterp spec fn md5_digest(data: Seq<u8>) -> Seq<u8>;

/// `Digest::new` for `md5::Md5`: a state that has been given nothing.
#[verifier::external_body]
pub(crate) fn md5_new() -> (state: md5::Md5)
    ensures
        md5_taken(state) == Seq::<u8>::empty(),
{
    <md5::Md5 as md5::Digest>::new()
}

/// `Digest::update` for `md5::Md5`: the state has been given `data` after what
/// it had.
#[verifier::external_body]
pub(crate) fn md5_update(state: &mut md5::Md5, data: &[u8])
    ensures
        md5_taken(*final(state)) == md5_taken(*old(state)) + data@,
{
    md5::Digest::update(state, data)
}

/// `Digest::finalize` for `md5::Md5`: the digest of what the state was given.
#[verifier::external_body]
pub(crate) fn md5_finalize(state: md5::Md5) -> (digest: Vec<u8>)
    ensures
        digest@ == md5_digest(md5_taken(state)),
{
    md5::Digest::finalize(state).to_vec()
}

/// `sha1::Sha1`, the running state of a SHA-1 computation.
#[verifier::external_type_specification]
#[verifier::external_body]
pub struct ExSha1(sha1::Sha1);

/// The bytes that a `sha1::Sha1` has been given so far.
pub uninterp spec fn sha1_taken(state: sha1::Sha1) -> Seq<u8>;

/// The SHA-1 digest of `data`, as `finalize` of a `sha1::Sha1` returns it.
pub uninterp spec fn sha1_digest(data: Seq<u8>) -> Seq<u8>;

/// `Digest::new` for `sha1::Sha1`: a state that has been given nothing.
#[verifier::external_body]
pub(crate) fn sha1_new() -> (state: sha1::Sha1)
    ensures
        sha1_taken(state) == Seq::<u8>::empty(),
{
    <sha1::Sha1 as sha1::Digest>::new()
}

/// `Digest::update` for `sha1::Sha1`: the state has been given `data` after what
/// it had.
#[verifier::external_body]
pub(crate) fn sha1_update(state: &mut sha1::Sha1, data: &[u8])
    ensures
        sha1_taken(*final(state)) == sha1_taken(*old(state)) + data@,
{
    sha1::Digest::update(state, data)
}

/// `Digest::finalize` for `sha1::Sha1`: the digest of what the state was given.
#[verifier::external_body]
pub(crate) fn sha1_finalize(state: sha1::Sha1) -> (digest: Vec<u8>)
    ensures
        digest@ == sha1_digest(sha1_taken(state)),
{
    sha1::Digest::finalize(state).to_vec()
}

/// `sha2::Sha224`, the running state of a SHA-224 computation.
#[verifier::external_type_specification]
#[verifier::external_body]
pub struct ExSha224(sha2::Sha224);

/// The bytes that a `sha2::Sha224` has been given so far.
pub uninterp spec fn sha224_taken(state: sha2::Sha224) -> Seq<u8>;

/// The SHA-224 digest of `data`, as `finalize` of a `sha2::Sha224` returns it.
pub uninterp spec fn sha224_digest(data: Seq<u8>) -> Seq<u8>;

/// `Digest::new` for `sha2::Sha224`: a state that has been given nothing.
#[verifier::external_body]
pub(crate) fn sha224_new() -> (state: sha2::Sha224)
    ensures
        sha224_taken(state) == Seq::<u8>::empty(),
{
    <sha2::Sha224 as sha2::Digest>::new()
}

/// `Digest::update` for `sha2::Sha224`: the state has been given `data` after what
/// it had.
#[verifier::external_body]
pub(crate) fn sha224_update(state: &mut sha2::Sha224, data: &[u8])
    ensures
        sha224_taken(*final(state)) == sha224_taken(*old(state)) + data@,
{
    sha2::Digest::update(state, data)
}

/// `Digest::finalize` for `sha2::Sha224`: the digest of what the state was given.
#[verifier::external_body]
pub(crate) fn sha224_finalize(state: sha2::Sha224) -> (digest: Vec<u8>)
    ensures
        digest@ == sha224_digest(sha224_taken(state)),
{
    sha2::Digest::finalize(state).to_vec()
}

/// `sha2::Sha256`, the running state of a SHA-256 computation.
#[verifier::external_type_specification]
#[verifier::external_body]
pub struct ExSha256(sha2::Sha256);

/// The bytes that a `sha2::Sha256` has been given so far.
pub uninterp spec fn sha256_taken(state: sha2::Sha256) -> Seq<u8>;

/// The SHA-256 digest of `data`, as `finalize` of a `sha2::Sha256` returns it.
pub uninterp spec fn sha256_digest(data: Seq<u8>) -> Seq<u8>;

/// `Digest::new` for `sha2::Sha256`: a state that has been given nothing.
#[verifier::external_body]
pub(crate) fn sha256_new() -> (state: sha2::Sha256)
    ensures
        sha256_taken(state) == Seq::<u8>::empty(),
{
    <sha2::Sha256 as sha2::Digest>::new()
}

/// `Digest::update` for `sha2::Sha256`: the state has been given `data` after what
/// it had.
#[verifier::external_body]
pub(crate) fn sha256_update(state: &mut sha2::Sha256, data: &[u8])
    ensures
        sha256_taken(*final(state)) == sha256_taken(*old(state)) + data@,
{
    sha2::Digest::update(state, data)
}

/// `Digest::finalize` for `sha2::Sha256`: the digest of what the state was given.
#[verifier::external_body]
pub(crate) fn sha256_finalize(state: sha2::Sha256) -> (digest: Vec<u8>)
    ensures
        digest@ == sha256_digest(sha256_taken(state)),
{
    sha2::Digest::finalize(state).to_vec()
}

/// `sha2::Sha384`, the running state of a SHA-384 computation.
#[verifier::external_type_specification]
#[verifier::external_body]
pub struct ExSha384(sha2::Sha384);

/// The bytes that a `sha2::Sha384` has been given so far.
pub uninterp spec fn sha384_taken(state: sha2::Sha384) -> Seq<u8>;

/// The SHA-384 digest of `data`, as `finalize` of a `sha2::Sha384` returns it.
pub uninterp spec fn sha384_digest(data: Seq<u8>) -> Seq<u8>;

/// `Digest::new` for `sha2::Sha384`: a state that has been given nothing.
#[verifier::external_body]
pub(crate) fn sha384_new() -> (state: sha2::Sha384)
    ensures
        sha384_taken(state) == Seq::<u8>::empty(),
{
    <sha2::Sha384 as sha2::Digest>::new()
}

/// `Digest::update` for `sha2::Sha384`: the state has been given `data` after what
/// it had.
#[verifier::external_body]
pub(crate) fn sha384_update(state: &mut sha2::Sha384, data: &[u8])
    ensures
        sha384_taken(*final(state)) == sha384_taken(*old(state)) + data@,
{
    sha2::Digest::update(state, data)
}

/// `Digest::finalize` for `sha2::Sha384`: the digest of what the state was given.
#[verifier::external_body]
pub(crate) fn sha384_finalize(state: sha2::Sha384) -> (digest: Vec<u8>)
    ensures
        digest@ == sha384_digest(sha384_taken(state)),
{
    sha2::Digest::finalize(state).to_vec()
}

/// `sha2::Sha512`, the running state of a SHA-512 computation.
#[verifier::external_type_specification]
#[verifier::external_body]
pub struct ExSha512(sha2::Sha512);

/// The bytes that a `sha2::Sha512` has been given so far.
pub uninterp spec fn sha512_taken(state: sha2::Sha512) -> Seq<u8>;

/// The SHA-512 digest of `data`, as `finalize` of a `sha2::Sha512` returns it.
pub uninterp spec fn sha512_digest(data: Seq<u8>) -> Seq<u8>;

/// `Digest::new` for `sha2::Sha512`: a state that has been given nothing.
#[verifier::external_body]
pub(crate) fn sha512_new() -> (state: sha2::Sha512)
    ensures
        sha512_taken(state) == Seq::<u8>::empty(),
{
    <sha2::Sha512 as sha2::Digest>::new()
}

/// `Digest::update` for `sha2::Sha512`: the state has been given `data` after what
/// it had.
#[verifier::external_body]
pub(crate) fn sha512_update(state: &mut sha2::Sha512, data: &[u8])
    ensures
        sha512_taken(*final(state)) == sha512_taken(*old(state)) + data@,
{
    sha2::Digest::update(state, data)
}

/// `Digest::finalize` for `sha2::Sha512`: the digest of what the state was given.
#[verifier::external_body]
pub(crate) fn sha512_finalize(state: sha2::Sha512) -> (digest: Vec<u8>)
    ensures
        digest@ == sha512_digest(sha512_taken(state)),
{
    sha2::Digest::finalize(state).to_vec()
}

} // verus!
