use cartoon_download::chapter::{begin_chapter_download, end_chapter_download};
use cartoon_download::pause::{is_cartoon_paused, pause_cartoon_download, CartoonPauseFlags};
use cartoon_download::progress::{
    begin_merge, begin_segment, get_cartoon_download_progress, mark_finished, mark_paused,
    mark_resumed, record_chunk, record_merged_part, record_segment, start_tracking, status_text,
    stop_tracking, tracked_progress, DownloadStatus, Percent, ProgressNote, ProgressRegistry,
};

fn ratio(p: Percent) -> (u64, u64, u64, u64) {
    match p {
        Percent::Ratio { offset, part, whole, scale } => (offset, part, whole, scale),
        Percent::Whole(v) => (v, 0, 1, 0),
    }
}

#[test]
fn status_texts() {
    assert_eq!(status_text(DownloadStatus::Starting), "starting");
    assert_eq!(status_text(DownloadStatus::Downloading), "downloading");
    assert_eq!(status_text(DownloadStatus::Paused), "paused");
    assert_eq!(status_text(DownloadStatus::Merging), "merging");
    assert_eq!(status_text(DownloadStatus::Completed), "completed");
}

#[test]
fn untracked_and_unsaved_chapter_has_not_started() {
    let reg = ProgressRegistry::new();
    assert!(tracked_progress(&reg, "c", "h").is_none());
    let p = get_cartoon_download_progress(&reg, "c", "h", &vec![None, None]);
    assert_eq!((p.downloaded_size, p.total_size, p.completed), (0, 0, false));
    assert!(matches!(p.percent, Percent::Whole(0)));
}

#[test]
fn saved_record_answers_when_not_tracked() {
    let reg = ProgressRegistry::new();
    let p = get_cartoon_download_progress(&reg, "c", "h", &vec![None, Some(4096)]);
    assert_eq!((p.downloaded_size, p.total_size, p.completed), (4096, 4096, true));
    assert!(matches!(p.percent, Percent::Whole(100)));
    let q = get_cartoon_download_progress(&reg, "c", "h", &vec![Some(1), Some(2)]);
    assert_eq!(q.downloaded_size, 1);
}

#[test]
fn plain_download_reports_bytes_and_percent() {
    let mut reg = ProgressRegistry::new();
    start_tracking(&mut reg, "c_h");
    let p = tracked_progress(&reg, "c", "h").unwrap();
    assert_eq!((p.downloaded_size, p.total_size, p.completed), (0, 0, false));
    let d = record_chunk(&mut reg, "c_h", 0, 250, 1000);
    assert_eq!(d, 250);
    let d = record_chunk(&mut reg, "c_h", d, 250, 1000);
    assert_eq!(d, 500);
    let p = get_cartoon_download_progress(&reg, "c", "h", &vec![Some(9)]);
    assert_eq!((p.downloaded_size, p.total_size, p.completed), (500, 1000, false));
    assert_eq!(ratio(p.percent), (0, 500, 1000, 100));
    let t = reg.get("c_h").unwrap();
    assert!(matches!(t.status, DownloadStatus::Downloading));
    assert!(matches!(t.current_file, ProgressNote::Percent(Percent::Ratio { part: 500, .. })));
}

#[test]
fn plain_download_of_unknown_size_keeps_the_percent() {
    let mut reg = ProgressRegistry::new();
    start_tracking(&mut reg, "k");
    record_chunk(&mut reg, "k", 0, 10, 0);
    let t = reg.get("k").unwrap();
    assert!(matches!(t.percent, Percent::Whole(0)));
    assert_eq!((t.downloaded_bytes, t.total_bytes), (10, 0));
}

#[test]
fn steps_on_an_untracked_key_change_nothing() {
    let mut reg = ProgressRegistry::new();
    assert_eq!(record_chunk(&mut reg, "k", 1, 2, 3), 3);
    begin_segment(&mut reg, "k", 0, 1);
    mark_paused(&mut reg, "k");
    assert!(reg.get("k").is_none());
}

#[test]
fn hls_download_walks_through_its_stages() {
    let mut reg = ProgressRegistry::new();
    start_tracking(&mut reg, "c_h");
    begin_segment(&mut reg, "c_h", 2, 10);
    let t = *reg.get("c_h").unwrap();
    assert_eq!((t.current_segment, t.total_segments), (3, 10));
    assert_eq!(ratio(t.percent), (0, 2, 10, 80));
    assert!(matches!(t.current_file, ProgressNote::Segment { number: 3, count: 10 }));
    let total = record_segment(&mut reg, "c_h", 100, 50);
    assert_eq!(total, 150);
    assert_eq!(reg.get("c_h").unwrap().downloaded_bytes, 150);
    mark_paused(&mut reg, "c_h");
    assert!(matches!(reg.get("c_h").unwrap().status, DownloadStatus::Paused));
    mark_resumed(&mut reg, "c_h", 2, 10);
    assert!(matches!(reg.get("c_h").unwrap().status, DownloadStatus::Downloading));
    begin_merge(&mut reg, "c_h");
    assert!(matches!(reg.get("c_h").unwrap().percent, Percent::Whole(80)));
    record_merged_part(&mut reg, "c_h", 4, 10, 7);
    let t = *reg.get("c_h").unwrap();
    assert_eq!(ratio(t.percent), (80, 4, 10, 20));
    assert!(matches!(t.current_file, ProgressNote::MergePart { number: 5, count: 10, index: 7 }));
    mark_finished(&mut reg, "c_h", 150);
    let p = tracked_progress(&reg, "c", "h").unwrap();
    assert!(p.completed);
    assert_eq!(p.total_size, 150);
    assert!(matches!(p.percent, Percent::Whole(100)));
    stop_tracking(&mut reg, "c_h");
    assert!(tracked_progress(&reg, "c", "h").is_none());
}

#[test]
fn ending_a_download_forgets_tracking_and_pause() {
    let mut reg = ProgressRegistry::new();
    let mut flags = CartoonPauseFlags::new();
    begin_chapter_download(&mut reg, "c", "h");
    begin_chapter_download(&mut reg, "c", "other");
    pause_cartoon_download(&mut flags, "c", "h").unwrap();
    pause_cartoon_download(&mut flags, "c", "other").unwrap();
    assert!(tracked_progress(&reg, "c", "h").is_some());
    end_chapter_download(&mut reg, &mut flags, "c", "h");
    assert!(tracked_progress(&reg, "c", "h").is_none());
    assert!(!is_cartoon_paused(&flags, "c|h"));
    assert!(tracked_progress(&reg, "c", "other").is_some());
    assert!(is_cartoon_paused(&flags, "c|other"));
}

fn value(p: Percent) -> f64 {
    match p {
        Percent::Whole(v) => v as f64,
        Percent::Ratio { offset, part, whole, scale } => offset as f64 + (part as f64 / whole as f64) * scale as f64,
    }
}

#[test]
fn hls_percent_never_goes_down() {
    let mut reg = ProgressRegistry::new();
    start_tracking(&mut reg, "k");
    let mut seen = vec![value(reg.get("k").unwrap().percent)];
    for i in 0..4 {
        begin_segment(&mut reg, "k", i, 4);
        seen.push(value(reg.get("k").unwrap().percent));
    }
    begin_merge(&mut reg, "k");
    seen.push(value(reg.get("k").unwrap().percent));
    for p in 0..3 {
        record_merged_part(&mut reg, "k", p, 3, p);
        seen.push(value(reg.get("k").unwrap().percent));
    }
    mark_finished(&mut reg, "k", 1);
    seen.push(value(reg.get("k").unwrap().percent));
    assert!(seen.windows(2).all(|w| w[0] <= w[1]));
    assert!(seen.iter().all(|&v| (0.0..=100.0).contains(&v)));
    assert_eq!(seen[4], 60.0);
    assert_eq!(seen[5], 80.0);
    assert_eq!(*seen.last().unwrap(), 100.0);
}

#[test]
fn resumed_hls_percent_never_goes_down() {
    let mut reg = ProgressRegistry::new();
    start_tracking(&mut reg, "k");
    let mut seen = vec![value(reg.get("k").unwrap().percent)];
    for i in 3..5 {
        begin_segment(&mut reg, "k", i, 5);
        seen.push(value(reg.get("k").unwrap().percent));
    }
    begin_merge(&mut reg, "k");
    seen.push(value(reg.get("k").unwrap().percent));
    mark_finished(&mut reg, "k", 1);
    seen.push(value(reg.get("k").unwrap().percent));
    assert_eq!(seen, vec![0.0, 48.0, 64.0, 80.0, 100.0]);
}
