use downloader::{
    choose_threads, Action, ArchiveError, ArchiveFormat, Checksum, Chunks, Decompressed, Download,
    DownloadError, Event, Location,
};
use std::io::Write;

fn url(text: &str) -> Location {
    Location::parse(text).unwrap()
}

fn name_of(download: &Download) -> Option<String> {
    download.fill_output().unwrap()
}

fn measured(text: &str, threads: u8, length: u64) -> Download {
    let mut engine = downloader::Downloader::new(vec![Download::new(text).unwrap().with_threads(threads)]);
    let answers = vec![Ok(downloader::Preflight { content_length: Some(length), url: url(text) })];
    match engine.start_downloads(downloader::Report::Answered(answers)) {
        downloader::Step::Transfer { mut downloads, .. } => downloads.pop().unwrap(),
        _ => panic!("the downloads were not handed out"),
    }
}

fn start(download: &mut Download) -> Chunks {
    match download.spawn(Event::Start).action {
        Action::Fetch(chunks) => chunks,
        _ => panic!("nothing to fetch"),
    }
}

fn fetch(download: &mut Download, data: &[u8]) -> Chunks {
    let mut parts = start(download).into_chunks();
    for chunk in parts.iter_mut() {
        let (begin, end) = (chunk.begin() as usize, chunk.end() as usize);
        if begin < end {
            chunk.receive(&data[begin..end]);
        }
    }
    Chunks::from_chunks(parts)
}

fn all_ok(n: usize) -> Vec<Result<(), DownloadError>> {
    (0..n).map(|_| Ok(())).collect()
}

fn sha256(data: &[u8]) -> String {
    let mut hasher = downloader::Hasher::from(downloader::CsType::Sha256);
    hasher.update(data);
    hasher.finalize()
}

#[test]
fn new_refuses_what_is_no_absolute_url() {
    assert!(matches!(Download::new("not a url"), Err(DownloadError::URLParse)));
    assert!(matches!(Download::new("/relative/path"), Err(DownloadError::URLParse)));
    assert!(matches!(Download::new(""), Err(DownloadError::URLParse)));
    assert!(Download::new("https://example.com/a/b/c.bin").is_ok());
}

#[test]
fn new_download_has_nothing_set() {
    let download = Download::new("https://example.com/a/b/c.bin").unwrap();
    assert_eq!(download.url().as_str(), "https://example.com/a/b/c.bin");
    assert!(download.headers().is_none());
    assert!(download.directory().is_none());
    assert_eq!(download.progress(), None);
    assert_eq!(download.preferred_threads(), None);
    assert_eq!(download.content_length(), None);
    assert_eq!(download.archive_format(), None);
}

#[test]
fn location_reads_host_and_last_segment() {
    let location = url("https://User@Example.COM:8080/a/b/c.bin?x=1#frag");
    assert_eq!(location.host().map(String::as_str), Some("example.com"));
    assert_eq!(location.last_segment().map(String::as_str), Some("c.bin"));
    let location = url("data:text/plain,Stuff");
    assert_eq!(location.host(), None);
    assert_eq!(location.last_segment(), None);
    assert!(Location::parse("::nonsense::").is_none());
}

#[test]
fn filename_is_the_last_path_segment() {
    let download = Download::new("https://example.com/a/b/c.bin").unwrap();
    assert_eq!(name_of(&download), Some("c.bin".to_string()));
}

#[test]
fn filename_falls_back_to_download() {
    for text in ["https://example.com/", "https://example.com", "https://example.com/a/b/"] {
        let download = Download::new(text).unwrap();
        assert_eq!(name_of(&download), Some("download".to_string()));
    }
    let download = Download::new("data:text/plain,Stuff").unwrap();
    assert_eq!(name_of(&download), Some("download".to_string()));
}

#[test]
fn given_filename_wins() {
    let download =
        Download::new("https://example.com/a/b/c.bin").unwrap().with_filename("mine.dat".to_string());
    assert_eq!(name_of(&download), Some("mine.dat".to_string()));
}

#[test]
fn supplied_file_needs_no_name() {
    let download = Download::new("https://example.com/a.tar")
        .unwrap()
        .with_filename("x".to_string())
        .with_archive_format(ArchiveFormat::Tar)
        .with_output_file();
    assert_eq!(name_of(&download), None);
}

#[test]
fn filename_with_a_multi_entry_format_is_refused() {
    for format in [
        ArchiveFormat::Tar,
        ArchiveFormat::TarBz2,
        ArchiveFormat::TarGz,
        ArchiveFormat::TarXz,
        ArchiveFormat::TarZst,
        ArchiveFormat::Zip,
    ] {
        let download = Download::new("https://example.com/a.tar")
            .unwrap()
            .with_filename("x".to_string())
            .with_archive_format(format);
        assert!(matches!(download.fill_output(), Err(DownloadError::UnsupportedFileName)));
        let download = Download::new("https://example.com/a.tar").unwrap().with_archive_format(format);
        assert_eq!(name_of(&download), Some("a.tar".to_string()));
    }
}

#[test]
fn codec_extension_is_stripped_only_where_present() {
    let cases = [
        (ArchiveFormat::Gz, "payload.gz", "payload"),
        (ArchiveFormat::Gz, "foo.txt.gz", "foo.txt"),
        (ArchiveFormat::Gz, "foo.tgz", "foo.tgz"),
        (ArchiveFormat::Gz, "foogz", "foogz"),
        (ArchiveFormat::Gz, ".gz", ""),
        (ArchiveFormat::Gz, "gz", "gz"),
        (ArchiveFormat::Gz, "a.gz.gz", "a.gz"),
        (ArchiveFormat::Bz2, "a.bz2", "a"),
        (ArchiveFormat::Bz2, "a.gz", "a.gz"),
        (ArchiveFormat::Xz, "a.tar.xz", "a.tar"),
        (ArchiveFormat::Zst, "a.zst", "a"),
        (ArchiveFormat::Zst, "a.zstd", "a.zstd"),
    ];
    for (format, given, expected) in cases {
        let from_url = Download::new(&format!("https://example.com/dir/{}", given))
            .unwrap()
            .with_archive_format(format);
        assert_eq!(name_of(&from_url), Some(expected.to_string()));
        let named = Download::new("https://example.com/other")
            .unwrap()
            .with_filename(given.to_string())
            .with_archive_format(format);
        assert_eq!(name_of(&named), Some(expected.to_string()));
    }
}

#[test]
fn threads_follow_the_size() {
    let plain = url("https://example.com/file");
    let cases = [
        (0u64, 1u8),
        (99_999_999, 1),
        (100_000_000, 2),
        (249_999_999, 2),
        (250_000_000, 3),
        (999_999_999, 3),
        (1_000_000_000, 4),
        (1_999_999_999, 4),
        (2_000_000_000, 5),
        (u64::MAX, 5),
    ];
    for (length, threads) in cases {
        assert_eq!(choose_threads(Some(length), &plain), Some(threads));
    }
    assert_eq!(choose_threads(None, &plain), None);
}

#[test]
fn singleton_hosts_get_one_thread() {
    for text in ["https://cdimage.ubuntu.com/x.iso", "http://dl.sourceforge.net/project/x"] {
        assert_eq!(choose_threads(Some(3_000_000_000), &url(text)), Some(1));
        assert_eq!(choose_threads(None, &url(text)), Some(1));
    }
    assert_eq!(choose_threads(Some(3_000_000_000), &url("https://ubuntu.com/x.iso")), Some(5));
    assert_eq!(
        choose_threads(Some(3_000_000_000), &url("https://mirror.cdimage.ubuntu.com/x")),
        Some(5)
    );
}

#[test]
fn spawn_splits_then_writes_the_pieces() {
    let data: Vec<u8> = (0..1000u32).map(|i| (i % 256) as u8).collect();
    let mut download = measured("https://example.com/data.bin", 2, 1000);
    let chunks = fetch(&mut download, &data);
    assert_eq!(chunks.len(), 2);
    assert_eq!(chunks.get(0).range(), Some("bytes=0-500".to_string()));
    assert_eq!(chunks.get(1).range(), Some("bytes=500-".to_string()));
    match download.spawn(Event::Fetched(chunks, all_ok(2))).action {
        Action::Write(pieces) => {
            assert_eq!(pieces.len(), 2);
            assert_eq!(pieces[0].0, 0);
            assert_eq!(pieces[1].0, 500);
            let file: Vec<u8> = pieces.into_iter().flat_map(|(_, bytes)| bytes).collect();
            assert_eq!(file, data);
        }
        _ => panic!("nothing to write"),
    }
    assert!(matches!(download.spawn(Event::Saved(Ok(()))).action, Action::Finish));
}

#[test]
fn spawn_with_matching_checksum_writes() {
    let data: Vec<u8> = (0..4096u32).map(|i| (i * 31 % 256) as u8).collect();
    let mut download = measured("https://example.com/data.bin", 4, 4096)
        .with_checksum(Checksum::new(&sha256(&data)).unwrap());
    let chunks = fetch(&mut download, &data);
    for i in 0..4 {
        assert_eq!(chunks.get(i).end() - chunks.get(i).begin(), 1024);
    }
    match download.spawn(Event::Fetched(chunks, all_ok(4))).action {
        Action::Write(pieces) => {
            let file: Vec<u8> = pieces.into_iter().flat_map(|(_, bytes)| bytes).collect();
            assert_eq!(file, data);
        }
        _ => panic!("nothing to write"),
    }
}

#[test]
fn spawn_with_altered_checksum_fails_before_anything_is_written() {
    let data: Vec<u8> = (0..4096u32).map(|i| (i * 31 % 256) as u8).collect();
    let mut digest = sha256(&data).into_bytes();
    let last = digest.len() - 1;
    digest[last] = if digest[last] == b'f' { b'e' } else { b'f' };
    let digest = String::from_utf8(digest).unwrap();
    let mut download =
        measured("https://example.com/data.bin", 4, 4096).with_checksum(Checksum::new(&digest).unwrap());
    let chunks = fetch(&mut download, &data);
    assert!(matches!(
        download.spawn(Event::Fetched(chunks, all_ok(4))).action,
        Action::Fail(DownloadError::InvalidChecksum)
    ));
}

#[test]
fn spawn_unpacks_where_a_format_is_set() {
    let mut encoder = flate2::write::GzEncoder::new(Vec::new(), flate2::Compression::default());
    encoder.write_all(b"hello\n").unwrap();
    let packed = encoder.finish().unwrap();
    let mut download = measured("https://example.com/payload.gz", 2, packed.len() as u64)
        .with_archive_format(ArchiveFormat::Gz);
    assert_eq!(download.fill_output().unwrap(), Some("payload".to_string()));
    let chunks = fetch(&mut download, &packed);
    match download.spawn(Event::Fetched(chunks, all_ok(2))).action {
        Action::Unpack(Decompressed::File(bytes)) => assert_eq!(bytes, b"hello\n"),
        _ => panic!("nothing to unpack"),
    }
}

#[test]
fn spawn_reports_a_broken_archive() {
    let data = b"certainly not gzip".to_vec();
    let mut download = measured("https://example.com/payload.gz", 1, data.len() as u64)
        .with_archive_format(ArchiveFormat::Gz);
    let chunks = fetch(&mut download, &data);
    assert!(matches!(
        download.spawn(Event::Fetched(chunks, all_ok(1))).action,
        Action::Fail(DownloadError::ArchiveError(ArchiveError::FileError(_)))
    ));
}

#[test]
fn spawn_fails_with_the_first_failed_transfer() {
    let data = vec![1u8; 100];
    let mut download = measured("https://example.com/data.bin", 3, 100);
    let chunks = fetch(&mut download, &data);
    let outcomes = vec![Ok(()), Err(DownloadError::ContentLength), Err(DownloadError::SaveError)];
    assert!(matches!(
        download.spawn(Event::Fetched(chunks, outcomes)).action,
        Action::Fail(DownloadError::ContentLength)
    ));
}

#[test]
fn spawn_refuses_short_bodies() {
    let mut download = measured("https://example.com/data.bin", 2, 100);
    let mut parts = start(&mut download).into_chunks();
    parts[0].receive(&[0u8; 50]);
    parts[1].receive(&[0u8; 49]);
    let chunks = Chunks::from_chunks(parts);
    assert!(matches!(
        download.spawn(Event::Fetched(chunks, all_ok(2))).action,
        Action::Fail(DownloadError::SaveError)
    ));
}

#[test]
fn spawn_refuses_no_threads() {
    let mut download = measured("https://example.com/data.bin", 0, 100);
    assert!(matches!(
        download.spawn(Event::Start).action,
        Action::Fail(DownloadError::InvalidThreads)
    ));
}

#[test]
fn spawn_passes_on_a_failed_save() {
    let mut download = measured("https://example.com/data.bin", 1, 1);
    let failure = DownloadError::FileError(std::io::Error::other("disk full"));
    assert!(matches!(
        download.spawn(Event::Saved(Err(failure))).action,
        Action::Fail(DownloadError::FileError(_))
    ));
}

#[test]
fn own_bar_is_finished_when_every_transfer_has_succeeded() {
    let with_bar = || {
        let mut engine = downloader::Downloader::new(vec![Download::new("https://example.com/a")
            .unwrap()
            .with_threads(2)
            .with_checksum(Checksum::new("d41d8cd98f00b204e9800998ecf8427e").unwrap())])
        .with_progress(downloader::Progress::default());
        let answers =
            vec![Ok(downloader::Preflight { content_length: Some(4), url: url("https://example.com/a") })];
        match engine.start_downloads(downloader::Report::Answered(answers)) {
            downloader::Step::Transfer { mut downloads, .. } => downloads.pop().unwrap(),
            _ => panic!("the downloads were not handed out"),
        }
    };

    let mut download = with_bar();
    assert_eq!(download.progress(), Some(4));
    assert!(!download.spawn(Event::Start).finish_bar);
    let chunks = fetch(&mut download, b"abcd");
    let reply = download.spawn(Event::Fetched(chunks, all_ok(2)));
    assert!(reply.finish_bar);
    assert!(matches!(reply.action, Action::Fail(DownloadError::InvalidChecksum)));
    assert!(!download.spawn(Event::Saved(Ok(()))).finish_bar);

    let mut download = with_bar();
    let chunks = fetch(&mut download, b"abcd");
    let reply = download.spawn(Event::Fetched(chunks, vec![Ok(()), Err(DownloadError::SaveError)]));
    assert!(!reply.finish_bar);
    assert!(matches!(reply.action, Action::Fail(DownloadError::SaveError)));

    let mut download = measured("https://example.com/a", 2, 4);
    let chunks = fetch(&mut download, b"abcd");
    let reply = download.spawn(Event::Fetched(chunks, all_ok(2)));
    assert!(!reply.finish_bar);
    assert!(matches!(reply.action, Action::Write(_)));
}
