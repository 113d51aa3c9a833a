use cartoon_download::pause::{pause_cartoon_download, resume_cartoon_download, CartoonPauseFlags};
use cartoon_download::plain::{PlainDownload, PlainStep};
use cartoon_download::progress::{start_tracking, Percent, ProgressRegistry};

#[test]
fn plain_download_waits_while_paused_and_counts_chunks() {
    let mut reg = ProgressRegistry::new();
    let mut flags = CartoonPauseFlags::new();
    start_tracking(&mut reg, "c_h");
    let mut run = PlainDownload::start(100);

    run.chunk_arrived(&flags, "c|h");
    assert!(matches!(run.step(), PlainStep::Write));
    run.chunk_written(&mut reg, "c_h", 40);
    assert_eq!(run.downloaded, 40);

    pause_cartoon_download(&mut flags, "c", "h").unwrap();
    run.chunk_arrived(&flags, "c|h");
    assert!(matches!(run.step(), PlainStep::WaitForResume));
    run.poll_resume(&flags, "c|h");
    assert!(matches!(run.step(), PlainStep::WaitForResume));
    resume_cartoon_download(&mut flags, "c", "h").unwrap();
    run.poll_resume(&flags, "c|h");
    assert!(matches!(run.step(), PlainStep::Write));
    run.chunk_written(&mut reg, "c_h", 60);
    assert_eq!(run.downloaded, 100);
    let t = reg.get("c_h").unwrap();
    assert_eq!((t.downloaded_bytes, t.total_bytes), (100, 100));
    assert!(matches!(t.percent, Percent::Ratio { part: 100, whole: 100, scale: 100, .. }));
}
