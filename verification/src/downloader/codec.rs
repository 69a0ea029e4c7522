//! The outside decoders and the zip reader behind trusted functions.
//!
//! Nothing here is proved: each contract says what the outside crate is
//! taken to do. A decoder reads on from where the reader stands; the zip
//! reader looks at all the bytes of the reader, wherever it stands.
use crate::downloader::decompress::{Output, SliceReader};
use vstd::prelude::*;

verus! {

/// `zip::result::ZipError`, carried through unread.
#[verifier::external_type_specification]
#[verifier::external_body]
pub struct ExZipError(zip::result::ZipError);

/// What `flate2::read::GzDecoder` reads out of the stream `data`; `None`
/// where it reports an error.
pub uninterp spec fn gz_decoded(data: Seq<u8>) -> Option<Seq<u8>>;

/// What `bzip2::read::BzDecoder` reads out of the stream `data`; `None`
/// where it reports an error.
pub uninterp spec fn bz_decoded(data: Seq<u8>) -> Option<Seq<u8>>;

/// What `liblzma::read::XzDecoder` reads out of the stream `data`; `None`
/// where it reports an error.
pub uninterp spec fn xz_decoded(data: Seq<u8>) -> Option<Seq<u8>>;

/// What `zstd::stream::Decoder` reads out of the stream `data`; `None`
/// where making the decoder or reading from it reports an error.
pub uninterp spec fn zst_decoded(data: Seq<u8>) -> Option<Seq<u8>>;

/// `zip::ZipArchive`, an archive opened over a reader.
#[verifier::external_type_specification]
#[verifier::external_body]
#[verifier::reject_recursive_types(R)]
pub struct ExZipArchive<R>(zip::ZipArchive<R>);

/// The files of the archive `data` as `zip::ZipArchive::new` finds them, in
/// the order of its directory; `None` where it refuses the archive. A file
/// is its name and its contents: the contents are `None` where reading them
/// fails, and the file is `None` where it or its name cannot be had.
pub uninterp spec fn zip_listing(data: Seq<u8>) -> Option<Seq<Option<(Seq<char>, Option<Seq<u8>>)>>>;

/// The files that an open archive holds, by index, as `by_index` hands them
/// out.
pub uninterp spec fn zip_files(archive: zip::ZipArchive<SliceReader<'_>>) -> Seq<
    Option<(Seq<char>, Option<Seq<u8>>)>,
>;

/// Runs `flate2::read::GzDecoder` over the rest of `reader` and copies what
/// it yields to `output` with `std::io::copy`. The decoder's result depends
/// on the bytes alone; on success all of it has been appended.
#[verifier::external_body]
pub(crate) fn gz_copy(reader: SliceReader<'_>, output: &mut Output) -> (r: Result<
    u64,
    std::io::Error,
>)
    ensures
        *final(output) is Tarball <==> *old(output) is Tarball,
        match gz_decoded(reader.remaining()) {
            Some(plain) => r is Ok && final(output).bytes() == old(output).bytes() + plain,
            None => r is Err,
        },
{
    std::io::copy(&mut flate2::read::GzDecoder::new(reader), output)
}

/// Runs `bzip2::read::BzDecoder` over the rest of `reader` and copies what
/// it yields to `output` with `std::io::copy`. The decoder's result depends
/// on the bytes alone; on success all of it has been appended.
#[verifier::external_body]
pub(crate) fn bz_copy(reader: SliceReader<'_>, output: &mut Output) -> (r: Result<
    u64,
    std::io::Error,
>)
    ensures
        *final(output) is Tarball <==> *old(output) is Tarball,
        match bz_decoded(reader.remaining()) {
            Some(plain) => r is Ok && final(output).bytes() == old(output).bytes() + plain,
            None => r is Err,
        },
{
    std::io::copy(&mut bzip2::read::BzDecoder::new(reader), output)
}

/// Runs `liblzma::read::XzDecoder` over the rest of `reader` and copies what
/// it yields to `output` with `std::io::copy`. The decoder's result depends
/// on the bytes alone; on success all of it has been appended.
#[verifier::external_body]
pub(crate) fn xz_copy(reader: SliceReader<'_>, output: &mut Output) -> (r: Result<
    u64,
    std::io::Error,
>)
    ensures
        *final(output) is Tarball <==> *old(output) is Tarball,
        match xz_decoded(reader.remaining()) {
            Some(plain) => r is Ok && final(output).bytes() == old(output).bytes() + plain,
            None => r is Err,
        },
{
    std::io::copy(&mut liblzma::read::XzDecoder::new(reader), output)
}

/// Makes a `zstd::stream::Decoder` over the rest of `reader` and copies what
/// it yields to `output` with `std::io::copy`. The decoder's result depends
/// on the bytes alone; on success all of it has been appended.
#[verifier::external_body]
pub(crate) fn zst_copy(reader: SliceReader<'_>, output: &mut Output) -> (r: Result<
    u64,
    std::io::Error,
>)
    ensures
        *final(output) is Tarball <==> *old(output) is Tarball,
        match zst_decoded(reader.remaining()) {
            Some(plain) => r is Ok && final(output).bytes() == old(output).bytes() + plain,
            None => r is Err,
        },
{
    std::io::copy(&mut zstd::stream::Decoder::new(reader)?, output)
}

/// `zip::ZipArchive::new`. It finds the archive's directory from the end of
/// the stream, wherever the reader stands, so the answer depends on all the
/// bytes of the reader and on them alone.
#[verifier::external_body]
pub(crate) fn zip_open(reader: SliceReader<'_>) -> (r: Result<
    zip::ZipArchive<SliceReader<'_>>,
    zip::result::ZipError,
>)
    ensures
        match zip_listing(reader.content()) {
            Some(files) => r matches Ok(archive) && zip_files(archive) == files,
            None => r is Err,
        },
{
    zip::ZipArchive::new(reader)
}

/// `zip::ZipArchive::len`: how many files the archive holds.
#[verifier::external_body]
pub(crate) fn zip_len(archive: &zip::ZipArchive<SliceReader<'_>>) -> (r: usize)
    ensures
        r == zip_files(*archive).len(),
{
    archive.len()
}

/// Takes file `index` with `zip::ZipArchive::by_index` and hands out its
/// `name` and what `std::io::copy` reads from it. The archive finds each
/// file by its offset, so it holds the same files afterwards; an index
/// beyond the last file is an error.
#[verifier::external_body]
pub(crate) fn zip_read(archive: &mut zip::ZipArchive<SliceReader<'_>>, index: usize) -> (r: Result<
    (String, Result<Vec<u8>, std::io::Error>),
    zip::result::ZipError,
>)
    ensures
        zip_files(*final(archive)) == zip_files(*old(archive)),
        index >= zip_files(*old(archive)).len() ==> r is Err,
        index < zip_files(*old(archive)).len() ==> match zip_files(*old(archive))[index as int] {
            Some((name, Some(contents))) => r matches Ok((n, Ok(c))) && n@ == name && c@
                == contents,
            Some((name, None)) => r matches Ok((n, Err(_))) && n@ == name,
            None => r is Err,
        },
{
    let mut file = archive.by_index(index)?;
    let name = file.name()?.into_owned();
    let mut contents = Vec::new();
    Ok((name, std::io::copy(&mut file, &mut contents).map(|_| contents)))
}

} // verus!
