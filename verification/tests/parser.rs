use plsdo::ytdl_line::{
    parse, parse_eta, parse_prefix, DownloadProgress, ParseError, Progress, YtdlLine,
};

const VIDEO_URL: &str = "[youtube] Extracting URL: <video-url>";
const VIDEO_DOWNLOAD_PATH: &str = "[download] Destination: <video-download-path>";
const VIDEO_DOWNLOAD_PROGRESS: &str = "[download]   0.2% of    9.84MiB at    4.40KiB/s ETA 41:56";
const VIDEO_DOWNLOAD_DONE: &str = "[download] 100% of   14.25MiB in 00:00:01 at 9.29MiB/s";
const VIDEO_DOWNLOAD_ERROR: &str = "ERROR: [youtube] <video-id>: <error-message>";
const VIDEO_EXTRACT_AUDIO: &str = "[ExtractAudio] Destination: <video-extract-path>";
const PLAYLIST_URL: &str = "[youtube:tab] Extracting URL: <playlist-url>";
const PLAYLIST_NAME: &str = "[download] Downloading playlist: <playlist-name>";
const PLAYLIST_VIDEO_COUNT: &str = "[youtube:tab] Playlist <playlist-name>: Downloading 99 items of 99";
const PLAYLIST_VIDEO_INDEX: &str = "[download] Downloading item 11 of 99";
const PLAYLIST_DOWNLOAD_DONE: &str = "[download] Finished downloading playlist: <playlist-name>";

#[test]
fn ytdl_line_parse_prefix_works() {
    let s = format!("{} yada yada", "[youtube]");
    assert!(parse_prefix(&s).is_ok());

    let s2 = "[Unrecognized prefix]";
    assert!(parse_prefix(s2).is_err());
}

#[test]
fn parser_video_url() {
    assert_eq!(parse(VIDEO_URL).unwrap(), YtdlLine::VideoUrl("<video-url>".into()));
}

#[test]
fn parser_video_download_path() {
    assert_eq!(
        parse(VIDEO_DOWNLOAD_PATH).unwrap(),
        YtdlLine::VideoDownloadPath("<video-download-path>".into())
    );
}

#[test]
fn parser_video_download_progress() {
    assert_eq!(
        parse(VIDEO_DOWNLOAD_PROGRESS).unwrap(),
        YtdlLine::VideoDownloadProgress(Progress::Downloading(DownloadProgress {
            percent: 0,
            total_size: 10076,
            download_speed: 4,
            eta: 2516,
        }))
    );
}

#[test]
fn parser_video_download_done() {
    assert_eq!(parse(VIDEO_DOWNLOAD_DONE).unwrap(), YtdlLine::VideoDownloadDone);
}

#[test]
fn parser_video_download_error() {
    assert_eq!(
        parse(VIDEO_DOWNLOAD_ERROR).unwrap(),
        YtdlLine::VideoDownloadError("<error-message>".into())
    );
}

#[test]
fn parser_video_extract_audio() {
    assert_eq!(
        parse(VIDEO_EXTRACT_AUDIO).unwrap(),
        YtdlLine::VideoExtractAudio("<video-extract-path>".into())
    );
}

#[test]
fn parser_playlist_url() {
    assert_eq!(parse(PLAYLIST_URL).unwrap(), YtdlLine::PlaylistUrl("<playlist-url>".into()));
}

#[test]
fn parser_playlist_name() {
    assert_eq!(parse(PLAYLIST_NAME).unwrap(), YtdlLine::PlaylistName("<playlist-name>".into()));
}

#[test]
fn parser_playlist_video_count() {
    assert_eq!(parse(PLAYLIST_VIDEO_COUNT).unwrap(), YtdlLine::PlaylistVideoCount(99));
}

#[test]
fn parser_playlist_video_index() {
    assert_eq!(parse(PLAYLIST_VIDEO_INDEX).unwrap(), YtdlLine::PlaylistVideoIndex(11));
}

#[test]
fn parser_playlist_download_done() {
    assert_eq!(parse(PLAYLIST_DOWNLOAD_DONE).unwrap(), YtdlLine::PlaylistDownloadDone);
}

#[test]
fn ytdl_line_parse_eta_works() {
    assert_eq!(parse_eta("00:00").unwrap(), 0);
    assert_eq!(parse_eta("01:00").unwrap(), 60);
    assert_eq!(parse_eta("01:59").unwrap(), 119);
    assert_eq!(parse_eta("02:00").unwrap(), 120);
    assert_eq!(parse_eta("01:00:00").unwrap(), 3600);

    // we don't care if mm or ss >= 60, even though it's technically incorrect
    assert_eq!(parse_eta("00:69").unwrap(), 69);
    assert_eq!(parse_eta("01:09").unwrap(), 69);
}

#[test]
fn parser_eta_single_component_and_failures() {
    assert_eq!(parse_eta("45").unwrap(), 45);
    assert_eq!(parse_eta(""), None);
    assert_eq!(parse_eta("xx"), None);
}

#[test]
fn parser_size_normalization() {
    // a B-suffixed size always normalizes to zero KiB
    let line = "[download] 50% of 123456B at 9.84MiB/s ETA 01:00";
    assert_eq!(
        parse(line).unwrap(),
        YtdlLine::VideoDownloadProgress(Progress::Downloading(DownloadProgress {
            percent: 50,
            total_size: 0,
            download_speed: 10076,
            eta: 60,
        }))
    );
    // GiB scales by 1024 * 1024, rounded to the nearest KiB
    let line = "[download] 1% of 1.5GiB at 543.71KiB/s ETA 10:00";
    assert_eq!(
        parse(line).unwrap(),
        YtdlLine::VideoDownloadProgress(Progress::Downloading(DownloadProgress {
            percent: 1,
            total_size: 1572864,
            download_speed: 544,
            eta: 600,
        }))
    );
}

#[test]
fn parser_percent_rounds_to_nearest() {
    let line = "[download]  12.5% of 100.0KiB at 1.0KiB/s ETA 00:10";
    match parse(line).unwrap() {
        YtdlLine::VideoDownloadProgress(Progress::Downloading(p)) => {
            assert_eq!(p.percent, 13);
            assert_eq!(p.total_size, 100);
            assert_eq!(p.download_speed, 1);
            assert_eq!(p.eta, 10);
        }
        other => panic!("unexpected event: {:?}", other),
    }
}

#[test]
fn parser_percent_rounding_to_hundred_is_done() {
    // 99.7 rounds to 100, so the line is the terminal done notice even
    // though its tail is no progress grammar
    assert_eq!(parse("[download]  99.7% whatever").unwrap(), YtdlLine::VideoDownloadDone);
}

#[test]
fn parser_unrecognized_prefix_is_an_error() {
    assert_eq!(parse("[Unrecognized prefix] hello"), Err(ParseError::UnrecognizedPrefix));
    assert_eq!(parse(""), Err(ParseError::UnrecognizedPrefix));
}

#[test]
fn parser_malformed_bodies_are_errors() {
    assert_eq!(parse("[download] bogus"), Err(ParseError::Malformed));
    assert_eq!(parse("[youtube] something else"), Err(ParseError::Malformed));
    assert_eq!(parse("ERROR: no colon follows"), Err(ParseError::Malformed));
    assert_eq!(parse("[download] 10% of 5.5XB at 1KiB/s ETA 00:10"), Err(ParseError::Malformed));
    assert_eq!(parse("[download] 10% of 5.5KiB at 1KiB/s ETA x"), Err(ParseError::Malformed));
}
