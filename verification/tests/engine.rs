use downloader::{
    ArchiveFormat, Download, DownloadError, Downloader, Location, Preflight, Progress, Report, Step,
};

fn answer(length: Option<u64>, url: &str) -> Result<Preflight, DownloadError> {
    Ok(Preflight { content_length: length, url: Location::parse(url).unwrap() })
}

fn transfer(engine: &mut Downloader, answers: Vec<Result<Preflight, DownloadError>>) -> (Vec<Download>, usize, Option<Option<u64>>) {
    match engine.start_downloads(Report::Answered(answers)) {
        Step::Transfer { downloads, simultaneous, bars } => {
            (downloads, simultaneous, bars.map(|bars| bars.main))
        }
        _ => panic!("the downloads were not handed out"),
    }
}

#[test]
fn run_begins_with_the_client() {
    let mut engine = Downloader::new_empty();
    assert!(matches!(
        engine.start_downloads(Report::Start),
        Step::Connect { timeout_secs: 6, retries: 3 }
    ));
    let mut engine = Downloader::new(Vec::new()).with_retries(9);
    assert!(matches!(
        engine.start_downloads(Report::Start),
        Step::Connect { timeout_secs: 6, retries: 9 }
    ));
}

#[test]
fn failed_client_ends_the_run() {
    let mut engine = Downloader::new_empty();
    assert!(matches!(
        engine.start_downloads(Report::Connected(Err(DownloadError::SaveError))),
        Step::Failed(DownloadError::SaveError)
    ));
}

#[test]
fn output_files_are_named_in_order() {
    let mut engine = Downloader::new_empty()
        .with_download(Download::new("https://example.com/a/b/c.bin").unwrap())
        .with_download(Download::new("https://example.com/").unwrap())
        .with_download(Download::new("https://example.com/x").unwrap().with_output_file())
        .with_download(
            Download::new("https://example.com/payload.gz")
                .unwrap()
                .with_archive_format(ArchiveFormat::Gz),
        );
    assert_eq!(engine.len(), 4);
    match engine.start_downloads(Report::Connected(Ok(()))) {
        Step::Create(names) => assert_eq!(
            names,
            vec![
                Some("c.bin".to_string()),
                Some("download".to_string()),
                None,
                Some("payload".to_string()),
            ]
        ),
        _ => panic!("no files to create"),
    }
    assert_eq!(engine.len(), 4);
}

#[test]
fn refused_file_name_ends_the_run() {
    let mut engine = Downloader::new(vec![
        Download::new("https://example.com/a").unwrap(),
        Download::new("https://example.com/b.zip")
            .unwrap()
            .with_filename("b".to_string())
            .with_archive_format(ArchiveFormat::Zip),
    ]);
    assert!(matches!(engine.fill_download_files(), Err(DownloadError::UnsupportedFileName)));
    assert!(matches!(
        engine.start_downloads(Report::Connected(Ok(()))),
        Step::Failed(DownloadError::UnsupportedFileName)
    ));
}

#[test]
fn existing_output_file_ends_the_run_before_any_request() {
    let mut engine = Downloader::new(vec![Download::new("https://example.com/a").unwrap()]);
    let exists = std::io::Error::from(std::io::ErrorKind::AlreadyExists);
    let step = engine.start_downloads(Report::Created(vec![Err(DownloadError::FileError(exists))]));
    match step {
        Step::Failed(DownloadError::FileError(e)) => {
            assert_eq!(e.kind(), std::io::ErrorKind::AlreadyExists)
        }
        _ => panic!("the run went on"),
    }
}

#[test]
fn created_files_lead_to_the_preflight() {
    let mut engine = Downloader::new(vec![Download::new("https://example.com/a").unwrap()]);
    assert!(matches!(engine.start_downloads(Report::Created(vec![Ok(())])), Step::Preflight));
}

#[test]
fn answers_settle_length_url_and_threads() {
    let mut engine = Downloader::new(vec![
        Download::new("http://example.com/small").unwrap(),
        Download::new("http://example.com/big").unwrap(),
        Download::new("http://example.com/chosen").unwrap().with_threads(7),
        Download::new("http://example.com/redirected").unwrap(),
    ])
    .with_simultaneous_downloads(2);
    let answers = vec![
        answer(Some(1000), "http://example.com/small"),
        answer(Some(1_500_000_000), "http://example.com/big"),
        answer(Some(3_000_000_000), "http://example.com/chosen"),
        answer(Some(3_000_000_000), "https://cdimage.ubuntu.com/release.iso"),
    ];
    let (downloads, simultaneous, bars) = transfer(&mut engine, answers);
    assert_eq!(simultaneous, 2);
    assert_eq!(bars, None);
    assert_eq!(engine.len(), 0);
    let seen: Vec<(Option<u64>, Option<u8>, Option<u64>)> = downloads
        .iter()
        .map(|d| (d.content_length(), d.preferred_threads(), d.progress()))
        .collect();
    assert_eq!(
        seen,
        vec![
            (Some(1000), Some(1), None),
            (Some(1_500_000_000), Some(4), None),
            (Some(3_000_000_000), Some(7), None),
            (Some(3_000_000_000), Some(1), None),
        ]
    );
    assert_eq!(downloads[3].url().as_str(), "https://cdimage.ubuntu.com/release.iso");
}

#[test]
fn singleton_host_is_fetched_whole_without_a_range() {
    let mut engine =
        Downloader::new(vec![Download::new("https://cdimage.ubuntu.com/release.iso").unwrap()]);
    let answers = vec![answer(Some(3_000_000_000), "https://cdimage.ubuntu.com/release.iso")];
    let (mut downloads, _, _) = transfer(&mut engine, answers);
    match downloads[0].spawn(downloader::Event::Start).action {
        downloader::Action::Fetch(chunks) => {
            assert_eq!(chunks.len(), 1);
            assert_eq!(chunks.get(0).range(), None);
            assert_eq!((chunks.get(0).begin(), chunks.get(0).end()), (0, 3_000_000_000));
        }
        _ => panic!("nothing to fetch"),
    }
}

#[test]
fn missing_length_ends_the_run() {
    let mut engine = Downloader::new(vec![
        Download::new("http://example.com/a").unwrap(),
        Download::new("http://example.com/b").unwrap(),
        Download::new("http://example.com/c").unwrap(),
    ]);
    let answers = vec![
        answer(Some(10), "http://example.com/a2"),
        answer(None, "http://example.com/b2"),
        Err(DownloadError::SaveError),
    ];
    assert!(matches!(
        engine.start_downloads(Report::Answered(answers)),
        Step::Failed(DownloadError::ContentLength)
    ));
    assert_eq!(engine.get(0).content_length(), Some(10));
    assert_eq!(engine.get(0).url().as_str(), "http://example.com/a2");
    assert_eq!(engine.get(1).content_length(), None);
    assert_eq!(engine.get(1).url().as_str(), "http://example.com/b");
    assert_eq!(engine.get(2).url().as_str(), "http://example.com/c");
}

#[test]
fn failed_request_ends_the_run() {
    let mut engine = Downloader::new(vec![
        Download::new("http://example.com/a").unwrap(),
        Download::new("http://example.com/b").unwrap(),
    ]);
    let answers = vec![Err(DownloadError::InvalidThreads), answer(None, "http://example.com/b")];
    assert!(matches!(engine.fill_lengths(answers), Err(DownloadError::InvalidThreads)));
}

#[test]
fn bars_follow_the_styles() {
    let three = || {
        Downloader::new(vec![
            Download::new("http://example.com/a").unwrap(),
            Download::new("http://example.com/b").unwrap(),
            Download::new("http://example.com/c").unwrap(),
        ])
    };
    let answers = || {
        vec![
            answer(Some(10), "http://example.com/a"),
            answer(Some(20), "http://example.com/b"),
            answer(Some(30), "http://example.com/c"),
        ]
    };
    let lengths = |downloads: &Vec<Download>| -> Vec<Option<u64>> {
        downloads.iter().map(|d| d.progress()).collect()
    };

    let (downloads, _, bars) = transfer(&mut three(), answers());
    assert_eq!(bars, None);
    assert_eq!(lengths(&downloads), vec![None, None, None]);

    let (downloads, _, bars) = transfer(&mut three().with_progress(Progress::new()), answers());
    assert_eq!(bars, None);
    assert_eq!(lengths(&downloads), vec![None, None, None]);

    let (downloads, _, bars) = transfer(&mut three().with_progress(Progress::default()), answers());
    assert_eq!(bars, Some(Some(3)));
    assert_eq!(lengths(&downloads), vec![Some(10), Some(20), Some(30)]);

    let total = Progress::new().with_default_total();
    let (downloads, _, bars) = transfer(&mut three().with_progress(total), answers());
    assert_eq!(bars, Some(Some(3)));
    assert_eq!(lengths(&downloads), vec![None, None, None]);

    let individual = Progress::new().with_default_individual();
    let (downloads, _, bars) = transfer(&mut three().with_progress(individual), answers());
    assert_eq!(bars, Some(None));
    assert_eq!(lengths(&downloads), vec![Some(10), Some(20), Some(30)]);
}

#[test]
fn one_download_shows_no_overall_bar() {
    let mut engine = Downloader::new(vec![Download::new("http://example.com/a").unwrap()])
        .with_progress(Progress::default());
    let (downloads, _, bars) = transfer(&mut engine, vec![answer(Some(10), "http://example.com/a")]);
    assert_eq!(bars, Some(None));
    assert_eq!(downloads[0].progress(), Some(10));
}

#[test]
fn progress_styles_can_be_set_and_read() {
    let progress = Progress::new();
    assert!(!progress.is_enabled());
    assert!(!progress.has_total() && !progress.has_individual());
    let style = indicatif::ProgressStyle::with_template("{bar}").unwrap();
    let progress = progress.with_total(style.clone());
    assert!(progress.is_enabled() && progress.has_total() && !progress.has_individual());
    assert!(progress.total_style().is_some() && progress.individual_style().is_none());
    let progress = Progress::new().with_individual(style);
    assert!(progress.is_enabled() && !progress.has_total() && progress.has_individual());
    let progress = Progress::default();
    assert!(progress.has_total() && progress.has_individual());
}

#[test]
fn transfers_end_the_run() {
    let mut engine = Downloader::new_empty();
    assert!(matches!(
        engine.start_downloads(Report::Transferred(vec![Ok(()), Ok(())])),
        Step::Done
    ));
    assert!(matches!(engine.start_downloads(Report::Transferred(Vec::new())), Step::Done));
    let results = vec![Ok(()), Err(DownloadError::InvalidChecksum), Err(DownloadError::SaveError)];
    assert!(matches!(
        engine.start_downloads(Report::Transferred(results)),
        Step::Failed(DownloadError::InvalidChecksum)
    ));
}

#[test]
fn defaults_are_three_and_three() {
    let mut engine = Downloader::new(vec![Download::new("http://example.com/a").unwrap()]);
    assert!(engine.progress().is_none());
    let (_, simultaneous, _) = transfer(&mut engine, vec![answer(Some(1), "http://example.com/a")]);
    assert_eq!(simultaneous, 3);
    assert_eq!(downloader::downloader::DEFAULT_RETRIES, 3);
    assert_eq!(downloader::downloader::DEFAULT_SIMULTANEOUS_DOWNLOADS, 3);
}

#[test]
fn errors_convert_as_their_variants_say() {
    let io = || std::io::Error::other("x");
    assert!(matches!(downloader::ArchiveError::from(io()), downloader::ArchiveError::FileError(_)));
    assert!(matches!(DownloadError::from(io()), DownloadError::FileError(_)));
    assert!(matches!(
        DownloadError::from(downloader::ArchiveError::UnarchiveError),
        DownloadError::ArchiveError(downloader::ArchiveError::UnarchiveError)
    ));
    let lifted: Result<(), DownloadError> = (|| {
        Err(downloader::ArchiveError::from(io()))?;
        Ok(())
    })();
    assert!(matches!(
        lifted,
        Err(DownloadError::ArchiveError(downloader::ArchiveError::FileError(_)))
    ));
}
