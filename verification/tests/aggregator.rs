use plsdo::aggregator::{
    derive_title, handle_download_process_message, handle_message, handle_query_message,
    AggregatorError, AggregatorState, DownloadInfo, EventKind, MessageOutcome,
};
use plsdo::message::{
    exit_message, line_to_message, DownloadProcessMessage, Message, MessagePayload,
};
use plsdo::ytdl_line::{DownloadProgress, Progress, YtdlLine};

fn create_message(pid: u32, mut message: DownloadProcessMessage) -> Message {
    message.pid = pid;
    Message::DownloadProcessMessage(message)
}

fn create_messages(pid: u32, messages: &mut [DownloadProcessMessage]) -> Vec<Message> {
    for message in messages.iter_mut() {
        message.pid = pid;
    }
    messages.iter().cloned().map(Message::DownloadProcessMessage).collect()
}

fn msg(line: YtdlLine) -> DownloadProcessMessage {
    DownloadProcessMessage { pid: 0, payload: MessagePayload::YtdlLine(line) }
}

fn url(url: &str) -> DownloadProcessMessage {
    msg(YtdlLine::VideoUrl(url.into()))
}

fn path(path: &str) -> DownloadProcessMessage {
    msg(YtdlLine::VideoDownloadPath(path.into()))
}

fn progress(percent: u32, total_size: u32, download_speed: u32, eta: u32) -> DownloadProcessMessage {
    msg(YtdlLine::VideoDownloadProgress(Progress::Downloading(DownloadProgress {
        percent,
        total_size,
        download_speed,
        eta,
    })))
}

fn done() -> DownloadProcessMessage {
    msg(YtdlLine::VideoDownloadDone)
}

fn exited() -> DownloadProcessMessage {
    DownloadProcessMessage { pid: 0, payload: MessagePayload::ProcessExited(0) }
}

fn record_count(state: &AggregatorState) -> usize {
    handle_query_message(state).len()
}

fn tag_messages(pid: u32, messages: &mut [DownloadProcessMessage]) -> Vec<DownloadProcessMessage> {
    for message in messages.iter_mut() {
        message.pid = pid;
    }
    messages.to_vec()
}

#[test]
fn processing_single_download() {
    let mut state = AggregatorState::new();
    let messages = create_messages(
        42,
        &mut [
            url("url"),
            path("path"),
            progress(1, 100, 20, 100),
            progress(20, 100, 40, 70),
            progress(60, 100, 40, 30),
            progress(100, 100, 40, 30),
            done(),
        ],
    );

    let last_message = create_messages(42, &mut [exited()]).pop().unwrap();

    for message in messages {
        let _ = handle_message(&mut state, message);
    }

    assert_eq!(record_count(&state), 1);

    let _ = handle_message(&mut state, last_message);

    assert_eq!(record_count(&state), 0);
}

#[test]
fn processing_two_interleaved_downloads() {
    let mut state = AggregatorState::new();
    let messages1 = vec![
        create_message(42, url("url")),
        create_message(43, url("url2")),
        create_message(42, path("path")),
        create_message(42, progress(1, 100, 20, 100)),
        create_message(43, path("path2")),
    ];

    let messages2 = vec![
        create_message(42, progress(20, 100, 40, 70)),
        create_message(42, progress(60, 100, 40, 30)),
        create_message(43, progress(0, 200, 10, 100)),
        create_message(43, progress(10, 200, 10, 90)),
        create_message(43, progress(20, 200, 10, 80)),
        create_message(42, progress(100, 100, 40, 30)),
        create_message(42, done()),
        create_message(43, progress(30, 200, 10, 70)),
        create_message(43, progress(40, 200, 10, 60)),
        create_message(43, progress(50, 200, 10, 50)),
        create_message(43, progress(60, 200, 10, 40)),
        create_message(42, exited()),
    ];

    let messages3 = vec![
        create_message(43, progress(70, 200, 10, 30)),
        create_message(43, progress(80, 200, 10, 20)),
        create_message(43, progress(90, 200, 10, 10)),
        create_message(43, progress(100, 200, 10, 0)),
        create_message(43, done()),
        create_message(43, exited()),
    ];

    for message in messages1 {
        let _ = handle_message(&mut state, message);
    }

    assert_eq!(record_count(&state), 2);

    for message in messages2 {
        let _ = handle_message(&mut state, message);
    }

    assert_eq!(record_count(&state), 1);

    for message in messages3 {
        let _ = handle_message(&mut state, message);
    }

    assert_eq!(record_count(&state), 0);
}

#[test]
#[should_panic]
fn processing_out_of_order_path_message_fails() {
    let mut state = AggregatorState::new();
    let mut messages = [path("path")];
    messages[0].pid = 42;

    handle_download_process_message(&mut state, messages[0].clone()).unwrap();
}

#[test]
fn untracked_path_inserts_no_record() {
    let mut state = AggregatorState::new();
    let mut m = path("some/file.mp4");
    m.pid = 7;
    let r = handle_download_process_message(&mut state, m);
    assert_eq!(r, Err(AggregatorError::NotTracked(EventKind::Path)));
    assert_eq!(record_count(&state), 0);
}

#[test]
fn interleaving_matches_isolated_processing() {
    // the same two event sequences, processed interleaved and in isolation,
    // leave identical per-id records
    let seq_a = [url("url-a"), path("dir/a.mp4"), progress(10, 100, 5, 90)];
    let seq_b = [url("url-b"), path("dir/b.mp4"), progress(70, 300, 9, 10)];

    let mut interleaved = AggregatorState::new();
    let a = create_messages(1, &mut seq_a.clone());
    let b = create_messages(2, &mut seq_b.clone());
    let order = [0usize, 1, 0, 1, 1, 0];
    let mut ia = a.into_iter();
    let mut ib = b.into_iter();
    for who in order {
        let m = if who == 0 { ia.next().unwrap() } else { ib.next().unwrap() };
        let _ = handle_message(&mut interleaved, m);
    }

    let mut only_a = AggregatorState::new();
    for m in create_messages(1, &mut seq_a.clone()) {
        let _ = handle_message(&mut only_a, m);
    }
    let mut only_b = AggregatorState::new();
    for m in create_messages(2, &mut seq_b.clone()) {
        let _ = handle_message(&mut only_b, m);
    }

    let snap = handle_query_message(&interleaved);
    let rec_a: Vec<&DownloadInfo> = snap.iter().filter(|e| e.0 == 1).map(|e| &e.1).collect();
    let rec_b: Vec<&DownloadInfo> = snap.iter().filter(|e| e.0 == 2).map(|e| &e.1).collect();
    let snap_a = handle_query_message(&only_a);
    let snap_b = handle_query_message(&only_b);
    assert_eq!(rec_a, snap_a.iter().map(|e| &e.1).collect::<Vec<_>>());
    assert_eq!(rec_b, snap_b.iter().map(|e| &e.1).collect::<Vec<_>>());
}

#[test]
fn query_is_idempotent() {
    let mut state = AggregatorState::new();
    for m in create_messages(5, &mut [url("u"), path("x/y.webm"), progress(3, 50, 2, 400)]) {
        let _ = handle_message(&mut state, m);
    }
    let first = match handle_message(&mut state, Message::QueryMessage) {
        MessageOutcome::Snapshot(s) => s,
        other => panic!("query did not answer with a snapshot: {:?}", other),
    };
    let second = match handle_message(&mut state, Message::QueryMessage) {
        MessageOutcome::Snapshot(s) => s,
        other => panic!("query did not answer with a snapshot: {:?}", other),
    };
    assert_eq!(first, second);
    assert_eq!(first.len(), 1);
}

#[test]
fn progress_before_path_evicts_and_rejects() {
    let mut state = AggregatorState::new();
    let mut m1 = url("u");
    m1.pid = 3;
    let mut m2 = progress(10, 100, 5, 60);
    m2.pid = 3;
    assert_eq!(handle_download_process_message(&mut state, m1), Ok(()));
    assert_eq!(
        handle_download_process_message(&mut state, m2),
        Err(AggregatorError::OutOfOrder(EventKind::Progress))
    );
    assert_eq!(record_count(&state), 0);
}

#[test]
fn done_forces_completed_shape() {
    let mut state = AggregatorState::new();
    for m in tag_messages(9, &mut [url("u"), path("d/t.mkv"), progress(60, 100, 40, 30), done()]) {
        handle_download_process_message(&mut state, m).unwrap();
    }
    let snap = handle_query_message(&state);
    assert_eq!(snap.len(), 1);
    match &snap[0].1 {
        DownloadInfo::Full(f) => {
            assert_eq!(f.metadata.title, "t");
            assert_eq!(
                f.progress,
                Progress::Downloading(DownloadProgress {
                    percent: 100,
                    total_size: 100,
                    download_speed: 0,
                    eta: 0,
                })
            );
        }
        other => panic!("unexpected record: {:?}", other),
    }
}

#[test]
fn extract_audio_needs_completion() {
    let mut state = AggregatorState::new();
    for m in tag_messages(4, &mut [url("u"), path("d/t.opus"), progress(50, 10, 1, 5)]) {
        handle_download_process_message(&mut state, m).unwrap();
    }
    let mut extract = msg_extract();
    extract.pid = 4;
    assert_eq!(
        handle_download_process_message(&mut state, extract),
        Err(AggregatorError::ExtractBeforeCompletion)
    );
    assert_eq!(record_count(&state), 0);
}

#[test]
fn extract_audio_after_done_moves_to_extracting() {
    let mut state = AggregatorState::new();
    for m in tag_messages(4, &mut [url("u"), path("d/t.opus"), progress(50, 10, 1, 5), done()]) {
        handle_download_process_message(&mut state, m).unwrap();
    }
    let mut extract = msg_extract();
    extract.pid = 4;
    handle_download_process_message(&mut state, extract).unwrap();
    let snap = handle_query_message(&state);
    match &snap[0].1 {
        DownloadInfo::Full(f) => assert_eq!(f.progress, Progress::Extracting),
        other => panic!("unexpected record: {:?}", other),
    }
}

fn msg_extract() -> DownloadProcessMessage {
    msg(YtdlLine::VideoExtractAudio("d/t.mp3".into()))
}

#[test]
fn error_event_removes_record_silently() {
    let mut state = AggregatorState::new();
    for m in tag_messages(8, &mut [url("u"), path("d/t.mp4")]) {
        handle_download_process_message(&mut state, m).unwrap();
    }
    let mut err_msg = msg(YtdlLine::VideoDownloadError("boom".into()));
    err_msg.pid = 8;
    assert_eq!(handle_download_process_message(&mut state, err_msg), Ok(()));
    assert_eq!(record_count(&state), 0);
}

#[test]
fn nonzero_exit_surfaces_failure() {
    let mut state = AggregatorState::new();
    for m in tag_messages(8, &mut [url("u")]) {
        handle_download_process_message(&mut state, m).unwrap();
    }
    let failed = DownloadProcessMessage { pid: 8, payload: MessagePayload::ProcessExited(3) };
    assert_eq!(
        handle_download_process_message(&mut state, failed),
        Err(AggregatorError::ProcessFailed(3))
    );
    assert_eq!(record_count(&state), 0);
}

#[test]
fn invalid_path_is_rejected_and_evicts() {
    let mut state = AggregatorState::new();
    for m in tag_messages(8, &mut [url("u")]) {
        handle_download_process_message(&mut state, m).unwrap();
    }
    let mut bad = path("somewhere/..");
    bad.pid = 8;
    assert_eq!(
        handle_download_process_message(&mut state, bad),
        Err(AggregatorError::InvalidPath)
    );
    assert_eq!(record_count(&state), 0);
}

#[test]
fn playlist_events_are_unsupported_and_leave_record() {
    let mut state = AggregatorState::new();
    for m in tag_messages(8, &mut [url("u")]) {
        handle_download_process_message(&mut state, m).unwrap();
    }
    let mut pl = msg(YtdlLine::PlaylistName("mix".into()));
    pl.pid = 8;
    assert_eq!(
        handle_download_process_message(&mut state, pl),
        Err(AggregatorError::UnsupportedPlaylistEvent)
    );
    assert_eq!(record_count(&state), 1);
}

#[test]
fn fresh_url_overwrites_tracked_record() {
    let mut state = AggregatorState::new();
    for m in tag_messages(8, &mut [url("first"), path("d/t.mp4"), url("second")]) {
        handle_download_process_message(&mut state, m).unwrap();
    }
    let snap = handle_query_message(&state);
    assert_eq!(snap.len(), 1);
    match &snap[0].1 {
        DownloadInfo::UrlOnly(u) => assert_eq!(u.url, "second"),
        other => panic!("unexpected record: {:?}", other),
    }
}

#[test]
fn line_to_message_wraps_parsed_events_only() {
    let m = line_to_message(42, "[youtube] Extracting URL: u").unwrap();
    assert_eq!(
        m,
        Message::DownloadProcessMessage(DownloadProcessMessage {
            pid: 42,
            payload: MessagePayload::YtdlLine(YtdlLine::VideoUrl("u".into())),
        })
    );
    assert_eq!(line_to_message(42, "some stray line"), None);
    assert_eq!(
        exit_message(7, 3),
        Message::DownloadProcessMessage(DownloadProcessMessage {
            pid: 7,
            payload: MessagePayload::ProcessExited(3),
        })
    );
}

#[test]
fn title_is_file_stem_of_path() {
    assert_eq!(derive_title("dir/sub/clip.mp4"), Some("clip".to_string()));
    assert_eq!(derive_title("clip.tar.gz"), Some("clip.tar".to_string()));
    assert_eq!(derive_title(".bashrc"), Some(".bashrc".to_string()));
    assert_eq!(derive_title("noext"), Some("noext".to_string()));
    assert_eq!(derive_title("trailingdot."), Some("trailingdot".to_string()));
    assert_eq!(derive_title(""), None);
    assert_eq!(derive_title("dir/"), None);
    assert_eq!(derive_title("dir/.."), None);
    assert_eq!(derive_title("dir/."), None);
}
