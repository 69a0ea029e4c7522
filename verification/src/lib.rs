//! A parallel download engine: the rules by which a resource is split into
//! byte ranges, reassembled, checked against a digest and unpacked.
pub mod downloader;
pub mod error;

pub use downloader::decompress::{
    ArchiveFormat, Decompressed, Entry, Output, SeekTarget, SliceReader,
};
pub use downloader::location::Location;
pub use downloader::progress::Progress;
pub use downloader::threads::{Arrival, Chunk, Chunks, Demand};
pub use downloader::verify::{Checksum, CsType, Hasher};
pub use downloader::{
    choose_threads, Action, Bars, Download, Downloader, Event, Preflight, Reply, Report, Step,
};
pub use error::{ArchiveError, ChecksumError, DownloadError};
