use cartoon_download::hls::{HlsDownload, HlsStep};
use cartoon_download::pause::{pause_cartoon_download, resume_cartoon_download, CartoonPauseFlags};
use cartoon_download::progress::{start_tracking, DownloadStatus, ProgressNote, ProgressRegistry};
use cartoon_download::segments::{FoundSegment, ResumePlan};

#[test]
fn hls_download_fetches_in_order_and_waits_while_paused() {
    let found: Vec<FoundSegment> = vec![FoundSegment { index: 0, size: 7 }, FoundSegment { index: 1, size: 5 }];
    let plan = ResumePlan::new(&found);
    let mut run = HlsDownload::start(&found, &plan, true, 4);
    assert_eq!(run.downloaded, 7);
    assert_eq!(run.next_index, 1);

    let mut reg = ProgressRegistry::new();
    let mut flags = CartoonPauseFlags::new();
    start_tracking(&mut reg, "c_h");

    assert!(matches!(run.step(), HlsStep::Fetch { index: 1 }));
    run.begin_fetch(&mut reg, "c_h");
    assert_eq!(reg.get("c_h").unwrap().current_segment, 2);
    run.segment_saved(&mut reg, "c_h", 10, &flags, "c|h");
    assert_eq!(run.downloaded, 17);
    assert_eq!(reg.get("c_h").unwrap().downloaded_bytes, 17);

    assert!(matches!(run.step(), HlsStep::Fetch { index: 2 }));
    run.begin_fetch(&mut reg, "c_h");
    pause_cartoon_download(&mut flags, "c", "h").unwrap();
    run.segment_saved(&mut reg, "c_h", 3, &flags, "c|h");
    assert!(run.paused);
    assert!(matches!(reg.get("c_h").unwrap().status, DownloadStatus::Paused));
    assert!(matches!(run.step(), HlsStep::WaitForResume));

    run.poll_resume(&mut reg, "c_h", &flags, "c|h");
    assert!(matches!(run.step(), HlsStep::WaitForResume));

    resume_cartoon_download(&mut flags, "c", "h").unwrap();
    run.poll_resume(&mut reg, "c_h", &flags, "c|h");
    assert!(!run.paused);
    let t = *reg.get("c_h").unwrap();
    assert!(matches!(t.status, DownloadStatus::Downloading));
    assert!(matches!(t.current_file, ProgressNote::Segment { number: 3, count: 4 }));

    assert!(matches!(run.step(), HlsStep::Fetch { index: 3 }));
    run.begin_fetch(&mut reg, "c_h");
    run.segment_saved(&mut reg, "c_h", 1, &flags, "c|h");
    assert!(matches!(run.step(), HlsStep::Join));
    assert_eq!(run.downloaded, 21);
}

#[test]
fn hls_download_with_nothing_left_joins_at_once() {
    let found: Vec<FoundSegment> = vec![
        FoundSegment { index: 0, size: 1 },
        FoundSegment { index: 1, size: 1 },
        FoundSegment { index: 2, size: 1 },
    ];
    let plan = ResumePlan::new(&found);
    let run = HlsDownload::start(&found, &plan, false, 2);
    assert_eq!(run.downloaded, 3);
    assert!(matches!(run.step(), HlsStep::Join));
}
