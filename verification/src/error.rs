//! The closed set of failures that the engine reports.
use vstd::prelude::*;

verus! {

/// `std::io::Error`, carried through unread.
#[verifier::external_type_specification]
#[verifier::external_body]
pub struct ExIoError(std::io::Error);

/// `reqwest::Error`, carried through unread.
#[verifier::external_type_specification]
#[verifier::external_body]
pub struct ExReqwestError(reqwest::Error);

/// `reqwest_middleware::Error`, carried through unread.
#[verifier::external_type_specification]
#[verifier::external_body]
pub struct ExMiddlewareError(reqwest_middleware::Error);

/// Why an expected digest could not be used or did not match.
#[derive(Debug, Clone, Copy, PartialEq, Eq, Structural)]
pub enum ChecksumError {
    /// The length of the expected digest belongs to no known algorithm.
    UnrecognizedSize,
    /// The algorithm is not one of the known ones.
    UnrecognizedType,
    /// The data does not hash to the expected digest.
    VerificationFailure,
}

/// Why decompression or extraction failed.
#[derive(Debug)]
pub enum ArchiveError {
    /// The archive itself is malformed.
    UnarchiveError,
    /// Reading the compressed stream or writing its contents failed.
    FileError(std::io::Error),
}

/// Why a download failed.
#[derive(Debug)]
pub enum DownloadError {
    /// The input string is not a valid absolute URL.
    URLParse,
    /// The server advertised no content length.
    ContentLength,
    /// The transport failed after its retries were used up.
    RequestError(reqwest_middleware::Error),
    /// Streaming a response body failed.
    ReqwestError(reqwest::Error),
    /// A filesystem operation failed.
    FileError(std::io::Error),
    /// A thread count outside 1..=255 was asked for.
    InvalidThreads,
    /// The computed digest differs from the expected one.
    InvalidChecksum,
    /// The data could not be saved.
    SaveError,
    /// A file name was given together with a multi-entry archive format.
    UnsupportedFileName,
    /// Decompression or extraction failed.
    ArchiveError(ArchiveError),
}

impl From<std::io::Error> for ArchiveError {
    /// An I/O error met while unpacking is a `FileError`.
    fn from(error: std::io::Error) -> (r: Self) {
        ArchiveError::FileError(error)
    }
}

impl vstd::std_specs::convert::FromSpecImpl<std::io::Error> for ArchiveError {
    open spec fn obeys_from_spec() -> bool {
        true
    }

    open spec fn from_spec(error: std::io::Error) -> Self {
        ArchiveError::FileError(error)
    }
}

impl From<reqwest_middleware::Error> for DownloadError {
    /// An error of the transport is a `RequestError`.
    fn from(error: reqwest_middleware::Error) -> (r: Self) {
        DownloadError::RequestError(error)
    }
}

impl vstd::std_specs::convert::FromSpecImpl<reqwest_middleware::Error> for DownloadError {
    open spec fn obeys_from_spec() -> bool {
        true
    }

    open spec fn from_spec(error: reqwest_middleware::Error) -> Self {
        DownloadError::RequestError(error)
    }
}

impl From<reqwest::Error> for DownloadError {
    /// An error of the body stream is a `ReqwestError`.
    fn from(error: reqwest::Error) -> (r: Self) {
        DownloadError::ReqwestError(error)
    }
}

impl vstd::std_specs::convert::FromSpecImpl<reqwest::Error> for DownloadError {
    open spec fn obeys_from_spec() -> bool {
        true
    }

    open spec fn from_spec(error: reqwest::Error) -> Self {
        DownloadError::ReqwestError(error)
    }
}

impl From<std::io::Error> for DownloadError {
    /// An I/O error is a `FileError`.
    fn from(error: std::io::Error) -> (r: Self) {
        DownloadError::FileError(error)
    }
}

impl vstd::std_specs::convert::FromSpecImpl<std::io::Error> for DownloadError {
    open spec fn obeys_from_spec() -> bool {
        true
    }

    open spec fn from_spec(error: std::io::Error) -> Self {
        DownloadError::FileError(error)
    }
}

impl From<ArchiveError> for DownloadError {
    /// A failure to unpack is an `ArchiveError`.
    fn from(error: ArchiveError) -> (r: Self) {
        DownloadError::ArchiveError(error)
    }
}

impl vstd::std_specs::convert::FromSpecImpl<ArchiveError> for DownloadError {
    open spec fn obeys_from_spec() -> bool {
        true
    }

    open spec fn from_spec(error: ArchiveError) -> Self {
        DownloadError::ArchiveError(error)
    }
}

/// The first failure among the outcomes, if there is one.
pub open spec fn first_error(outcomes: Seq<Result<(), DownloadError>>) -> Option<DownloadError>
    decreases outcomes.len(),
{
    if outcomes.len() == 0 {
        None
    } else {
        match outcomes[0] {
            Err(e) => Some(e),
            Ok(_) => first_error(outcomes.skip(1)),
        }
    }
}

/// The first failure among the outcomes, if there is one.
pub fn take_first_error(outcomes: Vec<Result<(), DownloadError>>) -> (first: Option<DownloadError>)
    ensures
        first == first_error(outcomes@),
{
    let mut outcomes = outcomes;
    let ghost all = outcomes@;
    let mut first: Option<DownloadError> = None;
    assert(all.skip(all.len() as int).len() == 0);
    while outcomes.len() > 0
        invariant
            outcomes@ == all.take(outcomes@.len() as int),
            outcomes@.len() <= all.len(),
            first == first_error(all.skip(outcomes@.len() as int)),
        decreases outcomes@.len(),
    {
        let ghost n = outcomes@.len() - 1;
        let outcome = outcomes.pop().unwrap();
        proof {
            assert(outcome == all[n]);
            assert(all.skip(n).skip(1) =~= all.skip(n + 1));
            assert(all.skip(n)[0] == all[n]);
            assert(outcomes@ =~= all.take(n));
        }
        if let Err(e) = outcome {
            first = Some(e);
        }
    }
    assert(all.skip(0) =~= all);
    first
}

/// Whether none of the outcomes is a failure.
pub fn all_ok(outcomes: &Vec<Result<(), DownloadError>>) -> (r: bool)
    ensures
        r == first_error(outcomes@) is None,
{
    let mut i: usize = outcomes.len();
    assert(outcomes@.skip(i as int).len() == 0);
    while i > 0
        invariant
            i <= outcomes@.len(),
            first_error(outcomes@.skip(i as int)) is None,
        decreases i,
    {
        i = i - 1;
        proof {
            assert(outcomes@.skip(i as int).skip(1) =~= outcomes@.skip(i + 1));
            assert(outcomes@.skip(i as int)[0] == outcomes@[i as int]);
        }
        if outcomes[i].is_err() {
            proof {
                lemma_error_stays(outcomes@, i as int);
            }
            return false;
        }
    }
    assert(outcomes@.skip(0) =~= outcomes@);
    true
}

/// A failure among the outcomes leaves a first failure.
proof fn lemma_error_stays(outcomes: Seq<Result<(), DownloadError>>, at: int)
    requires
        0 <= at < outcomes.len(),
        outcomes[at] is Err,
    ensures
        first_error(outcomes) is Some,
    decreases at,
{
    if at > 0 && outcomes[0] is Ok {
        assert(outcomes.skip(1)[at - 1] == outcomes[at]);
        lemma_error_stays(outcomes.skip(1), at - 1);
    }
}

} // verus!
