use stimstation::download::{
    draw_error_window, draw_progress_window, draw_rectangle, draw_rectangle_outline, get_char_pattern, watch_step,
    DownloadEvent, DownloadProgress, DownloadStatus, WatchAction,
};
use stimstation::word_wrap::{split_whitespace, wrap_words};

fn px(frame: &[u8], width: usize, x: usize, y: usize) -> [u8; 4] {
    let i = 4 * (y * width + x);
    [frame[i], frame[i + 1], frame[i + 2], frame[i + 3]]
}

fn chars(s: &str) -> Vec<char> {
    s.chars().collect()
}

#[test]
fn progress_starts_initializing() {
    let p = DownloadProgress::default();
    assert_eq!(p.downloaded, 0);
    assert_eq!(p.total, 0);
    assert!(p.status == DownloadStatus::Starting);
    assert_eq!(p.message, "Initializing download...");
}

#[test]
fn progress_follows_the_download() {
    let mut p = DownloadProgress::default();
    p.apply(DownloadEvent::Connecting);
    assert!(p.status == DownloadStatus::Downloading);
    assert_eq!(p.message, "Connecting to server...");
    p.apply(DownloadEvent::Connected(1000));
    assert_eq!(p.total, 1000);
    assert_eq!(p.message, "Downloading audio file...");
    p.apply(DownloadEvent::Received(300));
    p.apply(DownloadEvent::Received(700));
    assert_eq!(p.downloaded, 1000);
    p.apply(DownloadEvent::Finished);
    assert!(p.status == DownloadStatus::Completed);
    assert_eq!(p.message, "Download completed successfully!");
    p.apply(DownloadEvent::Failed("Download failed: timeout".to_string()));
    assert!(p.status == DownloadStatus::Error);
    assert_eq!(p.message, "Download failed: timeout");
}

#[test]
fn the_window_waits_before_closing() {
    assert_eq!(watch_step(DownloadStatus::Completed, None), WatchAction::StartTimer);
    assert_eq!(watch_step(DownloadStatus::Completed, Some(1_500_000_000)), WatchAction::Wait);
    assert_eq!(watch_step(DownloadStatus::Completed, Some(1_500_000_001)), WatchAction::Close);
    assert_eq!(watch_step(DownloadStatus::Error, None), WatchAction::StartTimerKeepError);
    assert_eq!(watch_step(DownloadStatus::Error, Some(1_900_000_000)), WatchAction::Wait);
    assert_eq!(watch_step(DownloadStatus::Error, Some(2_000_000_001)), WatchAction::Close);
    assert_eq!(watch_step(DownloadStatus::Downloading, Some(5)), WatchAction::ResetTimer);
    assert_eq!(watch_step(DownloadStatus::Starting, None), WatchAction::ResetTimer);
}

#[test]
fn progress_font_is_solid_blocks() {
    assert!(get_char_pattern('x').iter().all(|&b| b == 1));
    assert!(get_char_pattern(' ').iter().all(|&b| b == 0));
    assert_eq!(get_char_pattern('%').len(), 96);
}

#[test]
fn rectangles_are_clipped_to_the_frame() {
    let mut frame = vec![0u8; 4 * 6 * 4];
    draw_rectangle(&mut frame, 4, 2, 5, 5, [1, 2, 3, 4], 6);
    assert_eq!(px(&frame, 6, 4, 2), [1, 2, 3, 4]);
    assert_eq!(px(&frame, 6, 5, 3), [1, 2, 3, 4]);
    assert_eq!(px(&frame, 6, 3, 2), [0, 0, 0, 0]);
    assert_eq!(frame.iter().filter(|&&b| b == 4).count(), 4);
}

#[test]
fn outline_draws_the_four_edges() {
    let mut frame = vec![0u8; 4 * 6 * 6];
    draw_rectangle_outline(&mut frame, 1, 1, 4, 4, [9, 9, 9, 9], 6);
    assert_eq!(px(&frame, 6, 1, 1), [9, 9, 9, 9]);
    assert_eq!(px(&frame, 6, 4, 4), [9, 9, 9, 9]);
    assert_eq!(px(&frame, 6, 1, 3), [9, 9, 9, 9]);
    assert_eq!(px(&frame, 6, 2, 2), [0, 0, 0, 0]);
    assert_eq!(frame.iter().filter(|&&b| b == 9).count(), 12 * 4);
}

#[test]
fn whitespace_splits_words() {
    let words = split_whitespace("  hello \t world\u{3000}again ");
    assert_eq!(words, vec![chars("hello"), chars("world"), chars("again")]);
    assert!(split_whitespace("   ").is_empty());
}

#[test]
fn wrapping_fills_lines_up_to_fifty_bytes() {
    let words = vec![chars("aaaaaaaaa"); 11];
    let lines = wrap_words(&words);
    assert_eq!(lines.len(), 3);
    assert_eq!(lines[0], chars("aaaaaaaaa aaaaaaaaa aaaaaaaaa aaaaaaaaa aaaaaaaaa"));
    assert_eq!(lines[2], chars("aaaaaaaaa"));
    let long = vec![chars(&"b".repeat(60)), chars("c")];
    let lines = wrap_words(&long);
    assert_eq!(lines, vec![chars(&"b".repeat(60)), chars("c")]);
}

#[test]
fn wrapping_counts_bytes_not_characters() {
    let words = vec![chars(&"é".repeat(20)), chars(&"é".repeat(5))];
    let lines = wrap_words(&words);
    assert_eq!(lines.len(), 2);
}

#[test]
fn progress_window_draws_bar_and_text() {
    let (w, h) = (200usize, 100usize);
    let mut frame = vec![0u8; 4 * w * h];
    let mut p = DownloadProgress::default();
    p.apply(DownloadEvent::Connecting);
    p.apply(DownloadEvent::Connected(100));
    p.apply(DownloadEvent::Received(50));
    draw_progress_window(&mut frame, w as u32, h as u32, &p, 50, "50%");
    assert_eq!(px(&frame, w, 0, 0), [20, 20, 30, 255]);
    assert_eq!(px(&frame, w, 50, 40), [150, 150, 150, 255]);
    assert_eq!(px(&frame, w, 60, 45), [100, 200, 100, 255]);
    assert_eq!(px(&frame, w, 120, 45), [60, 60, 70, 255]);
    assert_eq!(px(&frame, w, 50, 10), [200, 200, 200, 255]);
    assert_eq!(px(&frame, w, 50, 85), [180, 180, 180, 255]);
}

#[test]
fn error_window_wraps_the_message() {
    let (w, h) = (500usize, 200usize);
    let mut frame = vec![0u8; 4 * w * h];
    draw_error_window(&mut frame, w as u32, h as u32, "network unreachable");
    assert_eq!(px(&frame, w, 0, 0), [40, 20, 20, 255]);
    assert_eq!(px(&frame, w, 10, 10), [200, 100, 100, 255]);
    assert_eq!(px(&frame, w, 12, 50), [200, 100, 100, 255]);
    assert_eq!(px(&frame, w, 50, 30), [255, 150, 150, 255]);
    assert_eq!(px(&frame, w, 30, 70), [200, 200, 200, 255]);
    assert_eq!(px(&frame, w, 30, 110), [180, 180, 180, 255]);
    assert_eq!(px(&frame, w, 30, 130), [180, 180, 180, 255]);
    assert_eq!(px(&frame, w, 30, 90), [40, 20, 20, 255]);
}

#[test]
fn error_window_closes_after_five_seconds() {
    assert!(!stimstation::download::error_window_expired(0));
    assert!(!stimstation::download::error_window_expired(5_000_000_000));
    assert!(stimstation::download::error_window_expired(5_000_000_001));
}
