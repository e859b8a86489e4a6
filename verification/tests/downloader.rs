use plsdo::downloader::{
    build_download_args, format_name, generate_socket_path, get_download_format_specifier,
    socket_path_for, u64_to_string, DownloadFormat, YtdlDownloader,
};

#[test]
fn format_specifier_table() {
    assert_eq!(
        get_download_format_specifier(&DownloadFormat::UpTo1440p),
        vec!["-f", "bestvideo[height<=1440]+bestaudio/best[height<=1440]"]
    );
    assert_eq!(
        get_download_format_specifier(&DownloadFormat::UpTo1080p),
        vec!["-f", "bestvideo[height<=1080]+bestaudio/best[height<=1080]"]
    );
    assert_eq!(
        get_download_format_specifier(&DownloadFormat::UpTo720p),
        vec!["-f", "bestvideo[height<=720]+bestaudio/best[height<=720]"]
    );
    assert_eq!(
        get_download_format_specifier(&DownloadFormat::UpTo480p),
        vec!["-f", "bestvideo[height<=480]+bestaudio/best[height<=480]"]
    );
    assert_eq!(
        get_download_format_specifier(&DownloadFormat::WorstVideo),
        vec!["-S", "+size,+br,+res,+fps"]
    );
    assert_eq!(
        get_download_format_specifier(&DownloadFormat::AudioOnly),
        vec!["-x", "--audio-format", "mp3"]
    );
}

#[test]
fn download_args_end_with_progress_flags_and_url() {
    let args = build_download_args("https://example.com/v", &DownloadFormat::UpTo720p);
    assert_eq!(
        args,
        vec![
            "-f",
            "bestvideo[height<=720]+bestaudio/best[height<=720]",
            "--progress",
            "--newline",
            "-r",
            "16384",
            "https://example.com/v",
        ]
    );
}

#[test]
fn format_names() {
    assert_eq!(format_name(DownloadFormat::UpTo1440p), "1440p");
    assert_eq!(format_name(DownloadFormat::UpTo1080p), "1080p");
    assert_eq!(format_name(DownloadFormat::UpTo720p), "720p");
    assert_eq!(format_name(DownloadFormat::UpTo480p), "480p");
    assert_eq!(format_name(DownloadFormat::WorstVideo), "worst");
    assert_eq!(format_name(DownloadFormat::AudioOnly), "audio-only");
}

#[test]
fn u64_to_string_writes_decimal() {
    assert_eq!(u64_to_string(0), "0");
    assert_eq!(u64_to_string(7), "7");
    assert_eq!(u64_to_string(40216), "40216");
    assert_eq!(u64_to_string(u64::MAX), "18446744073709551615");
}

#[test]
fn socket_path_is_prefix_plus_seconds() {
    assert_eq!(socket_path_for(1234), "/tmp/plsdo-ytdl-download-process-1234");
    assert!(generate_socket_path().starts_with("/tmp/plsdo-ytdl-download-process-"));
}

#[test]
fn downloader_builds() {
    let _d = YtdlDownloader::new();
}
