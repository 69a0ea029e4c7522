//! Downloads, their chunks and what happens to the bytes once they arrived.
pub mod codec;
pub mod decompress;
pub mod digest;
pub mod location;
pub mod progress;
pub mod text;
pub mod threads;
pub mod verify;

use crate::downloader::decompress::{joined, ArchiveFormat, Decompressed};
use crate::downloader::location::{parsed_url, Location, LocationView};
use crate::downloader::progress::Progress;
use crate::downloader::threads::{
    all_complete, by_begin, partition, payloads, ChunkView, Chunks,
};
use crate::downloader::verify::Checksum;
use crate::error::{all_ok, first_error, take_first_error, DownloadError};
use std::sync::Arc;
use vstd::prelude::*;
use vstd::string::{StrSliceExecFns, StringExecFns};

verus! {

/// `std::path::PathBuf`, carried through unread.
#[verifier::external_type_specification]
#[verifier::external_body]
pub struct ExPathBuf(std::path::PathBuf);

/// `reqwest::header::HeaderMap`, carried through unread.
#[verifier::external_type_specification]
#[verifier::external_body]
#[verifier::reject_recursive_types(T)]
pub struct ExHeaderMap<T>(reqwest::header::HeaderMap<T>);

/// `reqwest::header::HeaderValue`, carried through unread.
#[verifier::external_type_specification]
#[verifier::external_body]
pub struct ExHeaderValue(reqwest::header::HeaderValue);

/// How often a failed request is tried again unless told otherwise.
pub const DEFAULT_RETRIES: u32 = 3;

/// How many downloads run at once unless told otherwise.
pub const DEFAULT_SIMULTANEOUS_DOWNLOADS: usize = 3;

/// After how many seconds an attempt to connect is given up.
pub const CONNECT_TIMEOUT_SECS: u64 = 6;

/// Whether `host` is one of the hosts that are fetched from with one
/// connection only.
pub open spec fn is_singleton_host(host: Seq<char>) -> bool {
    host == "cdimage.ubuntu.com"@ || host == "dl.sourceforge.net"@
}

/// How many chunks a resource of `length` bytes is fetched in.
pub open spec fn threads_by_size(length: u64) -> u8 {
    if length >= 2_000_000_000 {
        5
    } else if length >= 1_000_000_000 {
        4
    } else if length >= 250_000_000 {
        3
    } else if length >= 100_000_000 {
        2
    } else {
        1
    }
}

/// How many chunks a resource is fetched in when the caller did not say:
/// one from a singleton host, else by its length, where that is known.
pub open spec fn threads_for(length: Option<u64>, host: Option<Seq<char>>) -> Option<u8> {
    if host matches Some(name) && is_singleton_host(name) {
        Some(1u8)
    } else {
        match length {
            Some(length) => Some(threads_by_size(length)),
            None => None,
        }
    }
}

/// How many chunks the resource at `url` is fetched in when the caller did
/// not say.
pub fn choose_threads(length: Option<u64>, url: &Location) -> (r: Option<u8>)
    ensures
        r == threads_for(length, url@.host),
        r matches Some(threads) ==> 1 <= threads <= 5,
{
    if let Some(host) = url.host() {
        let ubuntu = String::from_str("cdimage.ubuntu.com");
        let sourceforge = String::from_str("dl.sourceforge.net");
        if *host == ubuntu || *host == sourceforge {
            return Some(1);
        }
    }
    match length {
        Some(length) => Some(
            if length >= 2_000_000_000 {
                5
            } else if length >= 1_000_000_000 {
                4
            } else if length >= 250_000_000 {
                3
            } else if length >= 100_000_000 {
                2
            } else {
                1
            },
        ),
        None => None,
    }
}

/// Whether `name` ends with `suffix`.
pub open spec fn ends_with(name: Seq<char>, suffix: Seq<char>) -> bool {
    suffix.len() <= name.len() && name.skip(name.len() - suffix.len()) == suffix
}

/// `name` without `suffix` at its end, where it ends with it.
pub open spec fn without_suffix(name: Seq<char>, suffix: Seq<char>) -> Seq<char> {
    if ends_with(name, suffix) {
        name.take(name.len() - suffix.len())
    } else {
        name
    }
}

/// The extension that a file compressed with `format` has by convention,
/// with its dot. Formats that hold several files have none.
pub open spec fn dotted_extension(format: ArchiveFormat) -> Option<Seq<char>> {
    match format {
        ArchiveFormat::Bz2 => Some(".bz2"@),
        ArchiveFormat::Gz => Some(".gz"@),
        ArchiveFormat::Xz => Some(".xz"@),
        ArchiveFormat::Zst => Some(".zst"@),
        _ => None,
    }
}

/// Whether an archive of this format may hold several files.
pub open spec fn is_multi_entry(format: ArchiveFormat) -> bool {
    format.is_tarball() || format is Zip
}

/// The file name that a URL gives: the last segment of its path, or
/// `download` where that is empty or missing.
pub open spec fn default_filename(url: LocationView) -> Seq<char> {
    match url.segments {
        Some(segments) if segments.len() > 0 && segments.last().len() > 0 => segments.last(),
        _ => "download"@,
    }
}

/// The name of the file that a download is saved to, where the caller gave
/// no file: the given name or else the URL's, without the extension of the
/// compression that is undone. A given name is refused for a format that may
/// hold several files.
pub open spec fn output_name(
    given: Option<Seq<char>>,
    url: LocationView,
    format: Option<ArchiveFormat>,
) -> Result<Seq<char>, DownloadError> {
    let name = match given {
        Some(name) => name,
        None => default_filename(url),
    };
    match format {
        Some(format) => if is_multi_entry(format) && given is Some {
            Err(DownloadError::UnsupportedFileName)
        } else {
            match dotted_extension(format) {
                Some(extension) => Ok(without_suffix(name, extension)),
                None => Ok(name),
            }
        },
        None => Ok(name),
    }
}

/// `name` without `suffix` at its end, where it ends with it.
fn strip_suffix(name: &str, suffix: &str) -> (r: String)
    ensures
        r@ == without_suffix(name@, suffix@),
{
    let n = name.unicode_len();
    let k = suffix.unicode_len();
    if k > n {
        return String::from_str(name);
    }
    let mut j: usize = 0;
    while j < k
        invariant
            k <= n,
            n == name@.len(),
            k == suffix@.len(),
            j <= k,
            forall|i: int| 0 <= i < j ==> name@[n - k + i] == suffix@[i],
        decreases k - j,
    {
        if name.get_char(n - k + j) != suffix.get_char(j) {
            assert(name@.skip(n - k)[j as int] != suffix@[j as int]);
            return String::from_str(name);
        }
        j = j + 1;
    }
    assert(name@.skip(n - k) =~= suffix@);
    String::from_str(name.substring_char(0, n - k))
}

/// Whether an archive of this format may hold several files.
pub fn multi_entry(format: ArchiveFormat) -> (r: bool)
    ensures
        r == is_multi_entry(format),
{
    match format {
        ArchiveFormat::Zip
        | ArchiveFormat::Tar
        | ArchiveFormat::TarBz2
        | ArchiveFormat::TarGz
        | ArchiveFormat::TarXz
        | ArchiveFormat::TarZst => true,
        _ => false,
    }
}

/// What a download stands for.
pub struct DownloadView {
    pub url: LocationView,
    pub has_output: bool,
    pub directory: Option<std::path::PathBuf>,
    pub filename: Option<Seq<char>>,
    pub headers: Option<Arc<reqwest::header::HeaderMap>>,
    pub checksum: Option<Checksum>,
    pub preferred_threads: Option<u8>,
    pub content_length: Option<u64>,
    pub progress: Option<u64>,
    pub decompress: Option<ArchiveFormat>,
}

impl DownloadView {
    /// Nothing but the URL is set.
    pub open spec fn blank(self) -> bool {
        &&& !self.has_output
        &&& self.directory is None
        &&& self.filename is None
        &&& self.headers is None
        &&& self.checksum is None
        &&& self.preferred_threads is None
        &&& self.content_length is None
        &&& self.progress is None
        &&& self.decompress is None
    }
}

/// The plan for fetching one resource.
pub struct Download {
    url: Location,
    output: bool,
    directory: Option<std::path::PathBuf>,
    filename: Option<String>,
    headers: Option<Arc<reqwest::header::HeaderMap>>,
    checksum: Option<Checksum>,
    preferred_threads: Option<u8>,
    content_length: Option<u64>,
    progress: Option<u64>,
    decompress: Option<ArchiveFormat>,
}

impl View for Download {
    type V = DownloadView;

    closed spec fn view(&self) -> DownloadView {
        DownloadView {
            url: self.url@,
            has_output: self.output,
            directory: self.directory,
            filename: match self.filename {
                Some(name) => Some(name@),
                None => None,
            },
            headers: self.headers,
            checksum: self.checksum,
            preferred_threads: self.preferred_threads,
            content_length: self.content_length,
            progress: self.progress,
            decompress: self.decompress,
        }
    }
}

impl Download {
    /// A download of the URL that `url` spells, with nothing else set;
    /// `URLParse` where `url` is no absolute URL.
    pub fn new(url: &str) -> (r: Result<Self, DownloadError>)
        ensures
            match parsed_url(url@) {
                Some(parsed) => r matches Ok(download) && download@.url == parsed
                    && download@.blank(),
                None => r matches Err(DownloadError::URLParse),
            },
    {
        match Location::parse(url) {
            Some(url) => Ok(Self::new_from_url(url)),
            None => Err(DownloadError::URLParse),
        }
    }

    /// A download of `url`, with nothing else set.
    pub fn new_from_url(url: Location) -> (r: Self)
        ensures
            r@.url == url@,
            r@.blank(),
    {
        Self {
            url,
            output: false,
            directory: None,
            filename: None,
            headers: None,
            checksum: None,
            preferred_threads: None,
            content_length: None,
            progress: None,
            decompress: None,
        }
    }

    /// Names the file to save to.
    pub fn with_filename(self, filename: String) -> (r: Self)
        ensures
            r@ == (DownloadView { filename: Some(filename@), ..self@ }),
    {
        Self { filename: Some(filename), ..self }
    }

    /// Names the directory to save in.
    pub fn with_output_dir(self, path: std::path::PathBuf) -> (r: Self)
        ensures
            r@ == (DownloadView { directory: Some(path), ..self@ }),
    {
        Self { directory: Some(path), ..self }
    }

    /// Records that the caller supplies the open file to save to.
    pub fn with_output_file(self) -> (r: Self)
        ensures
            r@ == (DownloadView { has_output: true, ..self@ }),
    {
        Self { output: true, ..self }
    }

    /// Sets the headers that every request carries.
    pub fn with_headers(self, headers: reqwest::header::HeaderMap) -> (r: Self)
        ensures
            r@ == (DownloadView { headers: Some(Arc::new(headers)), ..self@ }),
    {
        Self { headers: Some(Arc::new(headers)), ..self }
    }

    /// Sets the checksum that the bytes are held against.
    pub fn with_checksum(self, checksum: Checksum) -> (r: Self)
        ensures
            r@ == (DownloadView { checksum: Some(checksum), ..self@ }),
    {
        Self { checksum: Some(checksum), ..self }
    }

    /// Sets the number of chunks, which is to be from 1 to 255.
    pub fn with_threads(self, threads: u8) -> (r: Self)
        ensures
            r@ == (DownloadView { preferred_threads: Some(threads), ..self@ }),
    {
        Self { preferred_threads: Some(threads), ..self }
    }

    /// Sets the format that the bytes are unpacked from.
    pub fn with_archive_format(self, format: ArchiveFormat) -> (r: Self)
        ensures
            r@ == (DownloadView { decompress: Some(format), ..self@ }),
    {
        Self { decompress: Some(format), ..self }
    }

    /// Settles where the download is saved. Where the caller supplies the
    /// open file there is nothing to create; else the result is the name of
    /// the file to create, which must not exist yet, or `UnsupportedFileName`.
    pub fn fill_output(&self) -> (r: Result<Option<String>, DownloadError>)
        ensures
            self@.has_output ==> r matches Ok(None),
            !self@.has_output ==> match output_name(self@.filename, self@.url, self@.decompress) {
                Ok(name) => r matches Ok(Some(text)) && text@ == name,
                Err(e) => r == Err::<Option<String>, DownloadError>(e),
            },
    {
        if self.output {
            return Ok(None);
        }
        let fallback = String::from_str("download");
        let filename: &String = match &self.filename {
            Some(name) => name,
            None => match self.url.last_segment() {
                Some(name) => if name.as_str().unicode_len() > 0 {
                    name
                } else {
                    &fallback
                },
                None => &fallback,
            },
        };
        match self.decompress {
            Some(format) => {
                if multi_entry(format) && self.filename.is_some() {
                    return Err(DownloadError::UnsupportedFileName);
                }
                let stripped = match format {
                    ArchiveFormat::Bz2 => strip_suffix(filename.as_str(), ".bz2"),
                    ArchiveFormat::Gz => strip_suffix(filename.as_str(), ".gz"),
                    ArchiveFormat::Xz => strip_suffix(filename.as_str(), ".xz"),
                    ArchiveFormat::Zst => strip_suffix(filename.as_str(), ".zst"),
                    _ => filename.clone(),
                };
                Ok(Some(stripped))
            },
            None => Ok(Some(filename.clone())),
        }
    }

    /// The URL to fetch from.
    pub fn url(&self) -> (r: &Location)
        ensures
            r@ == self@.url,
    {
        &self.url
    }

    /// The headers that every request carries.
    pub fn headers(&self) -> (r: &Option<Arc<reqwest::header::HeaderMap>>)
        ensures
            *r == self@.headers,
    {
        &self.headers
    }

    /// The directory to save in, where one was named.
    pub fn directory(&self) -> (r: &Option<std::path::PathBuf>)
        ensures
            *r == self@.directory,
    {
        &self.directory
    }

    /// The length of the per-file progress bar, where the download has one.
    pub fn progress(&self) -> (r: Option<u64>)
        ensures
            r == self@.progress,
    {
        self.progress
    }

    /// The number of chunks, once it is settled.
    pub fn preferred_threads(&self) -> (r: Option<u8>)
        ensures
            r == self@.preferred_threads,
    {
        self.preferred_threads
    }

    /// The length of the resource, once it is known.
    pub fn content_length(&self) -> (r: Option<u64>)
        ensures
            r == self@.content_length,
    {
        self.content_length
    }

    /// The format that the bytes are unpacked from, if any.
    pub fn archive_format(&self) -> (r: Option<ArchiveFormat>)
        ensures
            r == self@.decompress,
    {
        self.decompress
    }

    /// Whether `action` is what `spawn` answers to the transfers' end: the
    /// first failed transfer fails the download; chunks that lack bytes of
    /// their range fail it with `SaveError`; a digest other than the expected
    /// one fails it with `InvalidChecksum`; else the bytes are unpacked, where
    /// a format is set, or written out chunk by chunk.
    pub open spec fn settled(
        view: DownloadView,
        chunks: Seq<ChunkView>,
        outcomes: Seq<Result<(), DownloadError>>,
        action: Action,
    ) -> bool {
        let sorted = by_begin(chunks);
        let data = joined(payloads(sorted));
        match first_error(outcomes) {
            Some(e) => action == Action::Fail(e),
            None => if !all_complete(sorted) {
                action matches Action::Fail(DownloadError::SaveError)
            } else if view.checksum matches Some(checksum) && !checksum.matches_after(data) {
                action matches Action::Fail(DownloadError::InvalidChecksum)
            } else {
                match view.decompress {
                    Some(format) => match action {
                        Action::Unpack(unpacked) => format.decompressed(data, Ok(unpacked)),
                        Action::Fail(DownloadError::ArchiveError(e)) => format.decompressed(
                            data,
                            Err(e),
                        ),
                        _ => false,
                    },
                    None => action matches Action::Write(pieces) && pieces@.len() == sorted.len()
                        && forall|i: int|
                        0 <= i < sorted.len() ==> (#[trigger] pieces@[i]).0 == sorted[i].begin
                            && pieces@[i].1@ == sorted[i].body,
                }
            },
        }
    }

    /// Decides what is done next for this download, given what was done
    /// last, and whether the download's own bar is finished now: it is when
    /// every transfer has succeeded. At the start the resource is split into
    /// chunks to fetch, unless it is to be split into none, which is
    /// `InvalidThreads`. When
    /// the transfers have ended their outcome is settled as `settled` says.
    /// When the bytes are saved the download is finished, or has failed with
    /// the error of the save.
    pub fn spawn(&mut self, event: Event) -> (reply: Reply)
        requires
            event is Start ==> old(self)@.preferred_threads is Some && old(self)@.content_length
                is Some,
        ensures
            final(self)@ == (DownloadView {
                checksum: if event is Fetched {
                    None
                } else {
                    old(self)@.checksum
                },
                ..old(self)@
            }),
            reply.finish_bar == match event {
                Event::Fetched(_, outcomes) => old(self)@.progress is Some && first_error(outcomes@)
                    is None,
                _ => false,
            },
            event is Start && old(self)@.preferred_threads->0 == 0 ==> reply.action matches Action::Fail(
                DownloadError::InvalidThreads,
            ),
            event is Start && old(self)@.preferred_threads->0 >= 1 ==> (
            reply.action matches Action::Fetch(chunks) && chunks@ == partition(
                old(self)@.preferred_threads->0 as nat,
                old(self)@.content_length->0 as nat,
            )),
            event matches Event::Fetched(chunks, outcomes) ==> Self::settled(
                old(self)@,
                chunks@,
                outcomes@,
                reply.action,
            ),
            event matches Event::Saved(Ok(_)) ==> reply.action is Finish,
            event matches Event::Saved(Err(e)) ==> reply.action == Action::Fail(e),
    {
        let finish_bar = match &event {
            Event::Fetched(_, outcomes) => self.progress.is_some() && all_ok(outcomes),
            _ => false,
        };
        Reply { action: self.decide(event), finish_bar }
    }

    /// What is done next for this download, given what was done last.
    fn decide(&mut self, event: Event) -> (action: Action)
        requires
            event is Start ==> old(self)@.preferred_threads is Some && old(self)@.content_length
                is Some,
        ensures
            final(self)@ == (DownloadView {
                checksum: if event is Fetched {
                    None
                } else {
                    old(self)@.checksum
                },
                ..old(self)@
            }),
            event is Start && old(self)@.preferred_threads->0 == 0 ==> action matches Action::Fail(
                DownloadError::InvalidThreads,
            ),
            event is Start && old(self)@.preferred_threads->0 >= 1 ==> (action matches Action::Fetch(
                chunks,
            ) && chunks@ == partition(
                old(self)@.preferred_threads->0 as nat,
                old(self)@.content_length->0 as nat,
            )),
            event matches Event::Fetched(chunks, outcomes) ==> Self::settled(
                old(self)@,
                chunks@,
                outcomes@,
                action,
            ),
            event matches Event::Saved(Ok(_)) ==> action is Finish,
            event matches Event::Saved(Err(e)) ==> action == Action::Fail(e),
    {
        match event {
            Event::Start => {
                let threads = self.preferred_threads.unwrap();
                let length = self.content_length.unwrap();
                if threads == 0 {
                    Action::Fail(DownloadError::InvalidThreads)
                } else {
                    Action::Fetch(Chunks::new(threads, length))
                }
            },
            Event::Fetched(chunks, outcomes) => {
                let checksum = self.checksum.take();
                let mut chunks = chunks;
                match chunks.download(outcomes) {
                    Err(e) => Action::Fail(e),
                    Ok(_) => {
                        if !chunks.is_complete() {
                            return Action::Fail(DownloadError::SaveError);
                        }
                        if let Some(checksum) = checksum {
                            match chunks.verify(checksum) {
                                Err(e) => {
                                    return Action::Fail(e);
                                },
                                Ok(_) => {},
                            }
                        }
                        match self.decompress {
                            Some(format) => match chunks.save_archive(format) {
                                Ok(unpacked) => Action::Unpack(unpacked),
                                Err(e) => Action::Fail(DownloadError::ArchiveError(e)),
                            },
                            None => Action::Write(chunks.save()),
                        }
                    },
                }
            },
            Event::Saved(saved) => match saved {
                Ok(_) => Action::Finish,
                Err(e) => Action::Fail(e),
            },
        }
    }
}

/// What the driver has done last for one download.
pub enum Event {
    /// Nothing yet.
    Start,
    /// The transfer of every chunk has ended: the chunks with what they
    /// received, and how each transfer ended.
    Fetched(Chunks, Vec<Result<(), DownloadError>>),
    /// The bytes were saved or unpacked, or that failed.
    Saved(Result<(), DownloadError>),
}

/// What `Download::spawn` answers.
pub struct Reply {
    /// What the driver does next.
    pub action: Action,
    /// Whether the driver finishes the download's own bar first.
    pub finish_bar: bool,
}

/// What the driver does next for one download.
pub enum Action {
    /// Fetch every chunk, all at once, each as its `download` demands.
    Fetch(Chunks),
    /// Write each piece at its offset to the output file, then sync the
    /// file.
    Write(Vec<(u64, Vec<u8>)>),
    /// Put what was unpacked in its place.
    Unpack(Decompressed),
    /// The download is done; the overall progress advances by one.
    Finish,
    /// The download has failed.
    Fail(DownloadError),
}

/// What a server answered before the transfer: the length it advertised,
/// if any, and the URL that the request ended at.
pub struct Preflight {
    pub content_length: Option<u64>,
    pub url: Location,
}

/// Which bars a run shows besides those of the single downloads.
pub struct Bars {
    /// The length of the bar that counts the downloads, where it is shown.
    pub main: Option<u64>,
}

/// What the driver has done last for the whole run.
pub enum Report {
    /// Nothing yet.
    Start,
    /// The HTTP client was built, or could not be.
    Connected(Result<(), DownloadError>),
    /// The output files were created; how each creation ended.
    Created(Vec<Result<(), DownloadError>>),
    /// The servers were asked; the answer for each download, in order.
    Answered(Vec<Result<Preflight, DownloadError>>),
    /// The transfers have run; how each ended, in the order of their ending.
    Transferred(Vec<Result<(), DownloadError>>),
}

/// What the driver does next for the whole run.
pub enum Step {
    /// Build the HTTP client, with this timeout for connecting and this many
    /// retries of a failed request, at growing intervals.
    Connect { timeout_secs: u64, retries: u32 },
    /// Create the named output files, none of which may exist; `None` stands
    /// for a download whose file the caller has supplied.
    Create(Vec<Option<String>>),
    /// Ask the server of each download for the length and the final URL.
    Preflight,
    /// Run these downloads, at most `simultaneous` at a time, and show
    /// these bars.
    Transfer { downloads: Vec<Download>, simultaneous: usize, bars: Option<Bars> },
    /// The run is done.
    Done,
    /// The run has failed.
    Failed(DownloadError),
}

/// The view of a name that may be missing.
pub open spec fn text_of(name: Option<String>) -> Option<Seq<char>> {
    match name {
        Some(name) => Some(name@),
        None => None,
    }
}

/// What is to be created for a download: nothing where the caller supplies
/// the file, else the file of the download's output name.
pub open spec fn output_plan(download: DownloadView) -> Result<Option<Seq<char>>, DownloadError> {
    if download.has_output {
        Ok(None)
    } else {
        match output_name(download.filename, download.url, download.decompress) {
            Ok(name) => Ok(Some(name)),
            Err(e) => Err(e),
        }
    }
}

/// Why an answer does not settle a download's length, if it does not.
pub open spec fn answer_failure(answer: Result<Preflight, DownloadError>) -> Option<DownloadError> {
    match answer {
        Err(e) => Some(e),
        Ok(preflight) => if preflight.content_length is None {
            Some(DownloadError::ContentLength)
        } else {
            None
        },
    }
}

/// Whether answer `k` is the first that settles no length.
pub open spec fn first_failure(answers: Seq<Result<Preflight, DownloadError>>, k: int) -> bool {
    &&& 0 <= k < answers.len()
    &&& answer_failure(answers[k]) is Some
    &&& forall|i: int| 0 <= i < k ==> answer_failure(#[trigger] answers[i]) is None
}

/// A download once the server has answered: its length is the advertised
/// one, and its URL the one that the request ended at.
pub open spec fn measured(download: DownloadView, answer: Result<Preflight, DownloadError>) -> DownloadView {
    DownloadView {
        content_length: answer->Ok_0.content_length,
        url: answer->Ok_0.url@,
        ..download
    }
}

/// The downloads with the first `upto` of them measured by their answers.
pub open spec fn measured_upto(
    downloads: Seq<DownloadView>,
    answers: Seq<Result<Preflight, DownloadError>>,
    upto: int,
) -> Seq<DownloadView> {
    Seq::new(
        downloads.len(),
        |i: int|
            if i < upto {
                measured(downloads[i], answers[i])
            } else {
                downloads[i]
            },
    )
}

/// A download with its number of chunks settled: the caller's, or else the
/// one that its host and length call for.
pub open spec fn threaded(download: DownloadView) -> DownloadView {
    if download.preferred_threads is None {
        DownloadView {
            preferred_threads: threads_for(download.content_length, download.url.host),
            ..download
        }
    } else {
        download
    }
}

/// A download with a bar of its own, as long as the resource.
pub open spec fn with_bar(download: DownloadView) -> DownloadView {
    DownloadView { progress: Some(download.content_length->0), ..download }
}

/// Whether bars of single downloads are shown.
pub open spec fn shows_files(progress: Option<Progress>) -> bool {
    progress matches Some(styles) && styles.individual() is Some
}

/// The bars of a run of `count` downloads: none unless a style is set; the
/// bar that counts the downloads only where it has a style and there are at
/// least two downloads.
pub open spec fn bars_for(progress: Option<Progress>, count: nat) -> Option<Bars> {
    match progress {
        Some(styles) => if styles.enabled() {
            Some(
                Bars {
                    main: if styles.total() is Some && count >= 2 {
                        Some(count as u64)
                    } else {
                        None
                    },
                },
            )
        } else {
            None
        },
        None => None,
    }
}

/// The downloads as they are handed to the transfers once every server has
/// answered: measured, their numbers of chunks settled, and with their bars
/// where those are shown.
pub open spec fn prepared(
    downloads: Seq<DownloadView>,
    answers: Seq<Result<Preflight, DownloadError>>,
    progress: Option<Progress>,
) -> Seq<DownloadView> {
    Seq::new(
        downloads.len(),
        |i: int|
            {
                let ready = threaded(measured(downloads[i], answers[i]));
                if shows_files(progress) {
                    with_bar(ready)
                } else {
                    ready
                }
            },
    )
}

/// What the engine stands for: the downloads, the bars to show, how many
/// downloads run at once and how often a failed request is tried again.
pub struct DownloaderView {
    pub downloads: Seq<DownloadView>,
    pub progress: Option<Progress>,
    pub simultaneous: usize,
    pub retries: u32,
}

/// The engine: a list of downloads and how they are run.
pub struct Downloader {
    downloads: Vec<Download>,
    progress: Option<Progress>,
    simultaneous: usize,
    retries: u32,
}

impl View for Downloader {
    type V = DownloaderView;

    closed spec fn view(&self) -> DownloaderView {
        DownloaderView {
            downloads: self.downloads@.map_values(|download: Download| download@),
            progress: self.progress,
            simultaneous: self.simultaneous,
            retries: self.retries,
        }
    }
}

impl Downloader {
    /// An engine for `downloads`: three at a time, three retries, no bars.
    pub fn new(downloads: Vec<Download>) -> (r: Self)
        ensures
            r@ == (DownloaderView {
                downloads: downloads@.map_values(|download: Download| download@),
                progress: None,
                simultaneous: DEFAULT_SIMULTANEOUS_DOWNLOADS,
                retries: DEFAULT_RETRIES,
            }),
    {
        Self {
            downloads,
            progress: None,
            simultaneous: DEFAULT_SIMULTANEOUS_DOWNLOADS,
            retries: DEFAULT_RETRIES,
        }
    }

    /// An engine without downloads.
    pub fn new_empty() -> (r: Self)
        ensures
            r@ == (DownloaderView {
                downloads: Seq::empty(),
                progress: None,
                simultaneous: DEFAULT_SIMULTANEOUS_DOWNLOADS,
                retries: DEFAULT_RETRIES,
            }),
    {
        let r = Self::new(Vec::new());
        assert(r@.downloads =~= Seq::empty());
        r
    }

    /// Sets the bars to show.
    pub fn with_progress(self, progress: Progress) -> (r: Self)
        ensures
            r@ == (DownloaderView { progress: Some(progress), ..self@ }),
    {
        Self { progress: Some(progress), ..self }
    }

    /// Adds a download behind those there are.
    pub fn with_download(self, download: Download) -> (r: Self)
        ensures
            r@ == (DownloaderView { downloads: self@.downloads.push(download@), ..self@ }),
    {
        let mut r = self;
        r.downloads.push(download);
        assert(r@.downloads =~= self@.downloads.push(download@));
        r
    }

    /// Sets how many downloads run at once.
    pub fn with_simultaneous_downloads(self, simultaneous: usize) -> (r: Self)
        ensures
            r@ == (DownloaderView { simultaneous, ..self@ }),
    {
        Self { simultaneous, ..self }
    }

    /// Sets how often a failed request is tried again.
    pub fn with_retries(self, retries: u32) -> (r: Self)
        ensures
            r@ == (DownloaderView { retries, ..self@ }),
    {
        Self { retries, ..self }
    }

    /// How many downloads there are.
    pub fn len(&self) -> (r: usize)
        ensures
            r == self@.downloads.len(),
    {
        self.downloads.len()
    }

    /// Download `index`.
    pub fn get(&self, index: usize) -> (r: &Download)
        requires
            index < self@.downloads.len(),
        ensures
            r@ == self@.downloads[index as int],
    {
        &self.downloads[index]
    }

    /// The styles of the bars to show.
    pub fn progress(&self) -> (r: &Option<Progress>)
        ensures
            *r == self@.progress,
    {
        &self.progress
    }

    /// Settles where every download is saved: for each in order the name of
    /// the file to create, or nothing where the caller supplies the file.
    /// The first download whose file name is refused fails them all.
    pub fn fill_download_files(&self) -> (r: Result<Vec<Option<String>>, DownloadError>)
        ensures
            match r {
                Ok(names) => names@.len() == self@.downloads.len() && forall|i: int|
                    0 <= i < names@.len() ==> output_plan(#[trigger] self@.downloads[i]) == Ok::<
                        Option<Seq<char>>,
                        DownloadError,
                    >(text_of(names@[i])),
                Err(e) => exists|k: int|
                    0 <= k < self@.downloads.len() && output_plan(#[trigger] self@.downloads[k])
                        == Err::<Option<Seq<char>>, DownloadError>(e) && forall|i: int|
                        0 <= i < k ==> output_plan(#[trigger] self@.downloads[i]) is Ok,
            },
    {
        let mut names: Vec<Option<String>> = Vec::new();
        let mut i: usize = 0;
        while i < self.downloads.len()
            invariant
                i <= self@.downloads.len(),
                self@.downloads.len() == self.downloads@.len(),
                names@.len() == i,
                forall|k: int|
                    0 <= k < i ==> output_plan(#[trigger] self@.downloads[k]) == Ok::<
                        Option<Seq<char>>,
                        DownloadError,
                    >(text_of(names@[k])),
            decreases self@.downloads.len() - i,
        {
            assert(self@.downloads[i as int] == self.downloads@[i as int]@);
            match self.downloads[i].fill_output() {
                Ok(name) => {
                    names.push(name);
                },
                Err(e) => {
                    return Err(e);
                },
            }
            i = i + 1;
        }
        Ok(names)
    }

    /// Takes in what the servers answered, download by download. The first
    /// answer that is an error or advertises no length ends it with that
    /// error, or with `ContentLength`; the downloads before it are measured,
    /// the others stay as they are.
    pub fn fill_lengths(&mut self, answers: Vec<Result<Preflight, DownloadError>>) -> (r: Result<
        (),
        DownloadError,
    >)
        requires
            answers@.len() == old(self)@.downloads.len(),
        ensures
            final(self)@.progress == old(self)@.progress,
            final(self)@.simultaneous == old(self)@.simultaneous,
            final(self)@.retries == old(self)@.retries,
            match r {
                Ok(_) => (forall|i: int|
                    0 <= i < answers@.len() ==> answer_failure(#[trigger] answers@[i]) is None)
                    && final(self)@.downloads == measured_upto(
                    old(self)@.downloads,
                    answers@,
                    answers@.len() as int,
                ),
                Err(e) => exists|k: int|
                    #[trigger] first_failure(answers@, k) && answer_failure(answers@[k]) == Some(e)
                        && final(self)@.downloads == measured_upto(old(self)@.downloads, answers@, k),
            },
    {
        let ghost all = answers@;
        let ghost before = self@.downloads;
        let mut pending = answers;
        let mut i: usize = 0;
        assert(self@.downloads =~= measured_upto(before, all, 0));
        assert(all.skip(0) =~= all);
        while i < self.downloads.len()
            invariant
                all.len() == before.len(),
                i <= before.len(),
                self.downloads@.len() == before.len(),
                pending@ == all.skip(i as int),
                all == answers@,
                before == old(self)@.downloads,
                self@.progress == old(self)@.progress,
                self@.simultaneous == old(self)@.simultaneous,
                self@.retries == old(self)@.retries,
                self@.downloads == measured_upto(before, all, i as int),
                forall|k: int| 0 <= k < i ==> answer_failure(#[trigger] all[k]) is None,
            decreases before.len() - i,
        {
            let answer = pending.remove(0);
            assert(answer == all[i as int]);
            assert(pending@ =~= all.skip(i + 1));
            match answer {
                Err(e) => {
                    assert(first_failure(all, i as int));
                    return Err(e);
                },
                Ok(preflight) => match preflight.content_length {
                    None => {
                        assert(first_failure(all, i as int));
                        return Err(DownloadError::ContentLength);
                    },
                    Some(length) => {
                        let ghost held = self@.downloads;
                        assert(held[i as int] == self.downloads@[i as int]@);
                        assert(held[i as int] == before[i as int]);
                        let download = self.downloads.remove(i);
                        assert(download@ == before[i as int]);
                        let download = Download {
                            content_length: Some(length),
                            url: preflight.url,
                            ..download
                        };
                        assert(download@ == measured(before[i as int], all[i as int]));
                        self.downloads.insert(i, download);
                        assert(self@.downloads =~= held.update(
                            i as int,
                            measured(before[i as int], all[i as int]),
                        ));
                        assert(self@.downloads =~= measured_upto(before, all, i + 1));
                    },
                },
            }
            i = i + 1;
        }
        Ok(())
    }

    /// Settles the number of chunks of every download for which the caller
    /// has not set it.
    pub fn finalize_threads(&mut self)
        ensures
            final(self)@ == (DownloaderView {
                downloads: old(self)@.downloads.map_values(|download: DownloadView| threaded(download)),
                ..old(self)@
            }),
    {
        let ghost before = self@.downloads;
        let mut i: usize = 0;
        while i < self.downloads.len()
            invariant
                i <= before.len(),
                self.downloads@.len() == before.len(),
                self@.progress == old(self)@.progress,
                self@.simultaneous == old(self)@.simultaneous,
                self@.retries == old(self)@.retries,
                before == old(self)@.downloads,
                forall|k: int| 0 <= k < i ==> #[trigger] self@.downloads[k] == threaded(before[k]),
                forall|k: int| i <= k < before.len() ==> #[trigger] self@.downloads[k] == before[k],
            decreases before.len() - i,
        {
            assert(self@.downloads[i as int] == self.downloads@[i as int]@);
            if self.downloads[i].preferred_threads.is_none() {
                let ghost held = self@.downloads;
                let download = self.downloads.remove(i);
                let threads = choose_threads(download.content_length, &download.url);
                let download = Download { preferred_threads: threads, ..download };
                self.downloads.insert(i, download);
                assert(self@.downloads =~= held.update(i as int, threaded(before[i as int])));
            }
            i = i + 1;
        }
        assert(self@.downloads =~= before.map_values(|download: DownloadView| threaded(download)));
    }

    /// Settles which bars the run shows, and gives every download its own
    /// bar where those are shown.
    pub fn initialize_progress(&mut self) -> (r: Option<Bars>)
        requires
            shows_files(old(self)@.progress) ==> forall|i: int|
                0 <= i < old(self)@.downloads.len() ==> (#[trigger] old(
                    self,
                )@.downloads[i]).content_length is Some,
        ensures
            r == bars_for(old(self)@.progress, old(self)@.downloads.len()),
            final(self)@ == (DownloaderView {
                downloads: if shows_files(old(self)@.progress) {
                    old(self)@.downloads.map_values(|download: DownloadView| with_bar(download))
                } else {
                    old(self)@.downloads
                },
                ..old(self)@
            }),
    {
        let (total, individual) = match &self.progress {
            Some(styles) => (styles.has_total(), styles.has_individual()),
            None => {
                return None;
            },
        };
        if !total && !individual {
            return None;
        }
        let count = self.downloads.len();
        let main = if total && count >= 2 {
            Some(count as u64)
        } else {
            None
        };
        if individual {
            let ghost before = self@.downloads;
            let mut i: usize = 0;
            while i < self.downloads.len()
                invariant
                    i <= before.len(),
                    self.downloads@.len() == before.len(),
                    self@.progress == old(self)@.progress,
                    self@.simultaneous == old(self)@.simultaneous,
                    self@.retries == old(self)@.retries,
                    before == old(self)@.downloads,
                    forall|k: int| 0 <= k < before.len() ==> (#[trigger] before[k]).content_length is Some,
                    forall|k: int| 0 <= k < i ==> #[trigger] self@.downloads[k] == with_bar(before[k]),
                    forall|k: int|
                        i <= k < before.len() ==> #[trigger] self@.downloads[k] == before[k],
                decreases before.len() - i,
            {
                let ghost held = self@.downloads;
                assert(held[i as int] == self.downloads@[i as int]@);
                assert(before[i as int].content_length is Some);
                let download = self.downloads.remove(i);
                let length = download.content_length.unwrap();
                let download = Download { progress: Some(length), ..download };
                self.downloads.insert(i, download);
                assert(self@.downloads =~= held.update(i as int, with_bar(before[i as int])));
                i = i + 1;
            }
            assert(self@.downloads =~= before.map_values(|download: DownloadView| with_bar(download)));
        }
        Some(Bars { main })
    }

    /// Whether `step` is what creating the output files begins with: the
    /// names of the files to create, download by download, or the failure of
    /// the first download whose file name is refused.
    pub open spec fn creating(downloads: Seq<DownloadView>, step: Step) -> bool {
        match step {
            Step::Create(names) => names@.len() == downloads.len() && forall|i: int|
                0 <= i < names@.len() ==> output_plan(#[trigger] downloads[i]) == Ok::<
                    Option<Seq<char>>,
                    DownloadError,
                >(text_of(names@[i])),
            Step::Failed(e) => exists|k: int|
                0 <= k < downloads.len() && output_plan(#[trigger] downloads[k]) == Err::<
                    Option<Seq<char>>,
                    DownloadError,
                >(e) && forall|i: int| 0 <= i < k ==> output_plan(#[trigger] downloads[i]) is Ok,
            _ => false,
        }
    }

    /// Whether `step` and the downloads `left` are what the servers' answers
    /// lead to: the failure of the first answer that settles no length, with
    /// the downloads before it measured; or else the transfer of all the
    /// downloads, prepared, which then are left to the driver.
    pub open spec fn answered(
        before: DownloaderView,
        answers: Seq<Result<Preflight, DownloadError>>,
        left: Seq<DownloadView>,
        step: Step,
    ) -> bool {
        match step {
            Step::Failed(e) => exists|k: int|
                #[trigger] first_failure(answers, k) && answer_failure(answers[k]) == Some(e)
                    && left == measured_upto(before.downloads, answers, k),
            Step::Transfer { downloads, simultaneous, bars } => {
                &&& forall|i: int|
                    0 <= i < answers.len() ==> answer_failure(#[trigger] answers[i]) is None
                &&& downloads@.map_values(|download: Download| download@) == prepared(
                    before.downloads,
                    answers,
                    before.progress,
                )
                &&& simultaneous == before.simultaneous
                &&& bars == bars_for(before.progress, before.downloads.len())
                &&& left.len() == 0
            },
            _ => false,
        }
    }

    /// Decides what is done next in the run, given what was done last. The
    /// run begins with building the client. Then the output files are
    /// settled and created, the servers are asked, and the downloads are
    /// handed out for transfer. Any failure that is reported, and any that
    /// is found on the way, ends the run with that failure.
    pub fn start_downloads(&mut self, report: Report) -> (step: Step)
        requires
            report matches Report::Answered(answers) ==> answers@.len() == old(
                self,
            )@.downloads.len(),
        ensures
            final(self)@.progress == old(self)@.progress,
            final(self)@.simultaneous == old(self)@.simultaneous,
            final(self)@.retries == old(self)@.retries,
            !(report is Answered) ==> final(self)@.downloads == old(self)@.downloads,
            report is Start ==> step == (Step::Connect {
                timeout_secs: CONNECT_TIMEOUT_SECS,
                retries: old(self)@.retries,
            }),
            report matches Report::Connected(Err(e)) ==> step == Step::Failed(e),
            report matches Report::Connected(Ok(_)) ==> Self::creating(old(self)@.downloads, step),
            report matches Report::Created(results) ==> step == match first_error(results@) {
                Some(e) => Step::Failed(e),
                None => Step::Preflight,
            },
            report matches Report::Answered(answers) ==> Self::answered(
                old(self)@,
                answers@,
                final(self)@.downloads,
                step,
            ),
            report matches Report::Transferred(results) ==> step == match first_error(results@) {
                Some(e) => Step::Failed(e),
                None => Step::Done,
            },
    {
        match report {
            Report::Start => Step::Connect {
                timeout_secs: CONNECT_TIMEOUT_SECS,
                retries: self.retries,
            },
            Report::Connected(built) => match built {
                Err(e) => Step::Failed(e),
                Ok(_) => match self.fill_download_files() {
                    Ok(names) => Step::Create(names),
                    Err(e) => Step::Failed(e),
                },
            },
            Report::Created(results) => match take_first_error(results) {
                Some(e) => Step::Failed(e),
                None => Step::Preflight,
            },
            Report::Answered(answers) => {
                let ghost given = answers@;
                match self.fill_lengths(answers) {
                    Err(e) => Step::Failed(e),
                    Ok(_) => {
                        let ghost lengths = self@.downloads;
                        self.finalize_threads();
                        let ghost threads = self@.downloads;
                        proof {
                            assert forall|i: int| 0 <= i < threads.len() implies (
                            #[trigger] threads[i]).content_length is Some by {
                                assert(answer_failure(given[i]) is None);
                                assert(lengths[i] == measured(old(self)@.downloads[i], given[i]));
                                assert(threads[i] == threaded(lengths[i]));
                            }
                        }
                        let bars = self.initialize_progress();
                        proof {
                            assert(self@.downloads =~= prepared(
                                old(self)@.downloads,
                                given,
                                old(self)@.progress,
                            ));
                        }
                        let mut downloads: Vec<Download> = Vec::new();
                        std::mem::swap(&mut self.downloads, &mut downloads);
                        Step::Transfer { downloads, simultaneous: self.simultaneous, bars }
                    },
                }
            },
            Report::Transferred(results) => match take_first_error(results) {
                Some(e) => Step::Failed(e),
                None => Step::Done,
            },
        }
    }
}

} // verus!
