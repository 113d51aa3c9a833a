use cartoon_download::clock::download_time_at;
use cartoon_download::progress::{tracked_progress, ProgressRegistry};
use cartoon_download::chapter::{start_chapter_download, ChapterStart};
use cartoon_download::chapter::{
    already_downloaded, cartoon_dir, chapter_dirs, chapter_info, chapter_info_now, cover_file_name,
    download_failed, download_roots, downloaded, file_name_from_url, is_hls_url, video_file_name,
    CartoonDownloadInfo,
};

fn info() -> CartoonDownloadInfo {
    CartoonDownloadInfo {
        cartoon_uuid: "cu".to_string(),
        cartoon_name: "Cartoon".to_string(),
        chapter_uuid: "hu".to_string(),
        chapter_name: "第1话".to_string(),
        video_url: "https://x/v.m3u8".to_string(),
        cover: "https://x/c.jpg".to_string(),
    }
}

#[test]
fn video_file_is_named_after_the_chapter() {
    assert_eq!(video_file_name("第1话"), "第1话.mp4");
    assert_eq!(video_file_name(""), ".mp4");
}

#[test]
fn chapter_record_copies_the_request() {
    let r = chapter_info(&info(), 42, "2024-05-06 07:08:09".to_string(), true);
    assert_eq!(r.cartoon_uuid, "cu");
    assert_eq!(r.cartoon_name, "Cartoon");
    assert_eq!(r.chapter_uuid, "hu");
    assert_eq!(r.chapter_name, "第1话");
    assert_eq!(r.video_file, "第1话.mp4");
    assert_eq!(r.file_size, 42);
    assert_eq!(r.download_time, "2024-05-06 07:08:09");
    assert!(r.is_completed);
}

#[test]
fn chapter_record_now_has_a_clock_time() {
    let r = chapter_info_now(&info(), 0, false).unwrap();
    assert!(!r.is_completed);
    assert_eq!(r.download_time.len(), 19);
    assert_eq!(&r.download_time[4..5], "-");
    assert_eq!(&r.download_time[10..11], " ");
}

#[test]
fn answers_name_the_chapter() {
    let a = already_downloaded("第1话", "/p/v.mp4".to_string());
    assert!(a.success);
    assert_eq!(a.message, "章节 \"第1话\" 已存在");
    assert_eq!(a.file_path, "/p/v.mp4");
    let b = downloaded("第1话", "/p/v.mp4".to_string());
    assert_eq!(b.message, "章节 \"第1话\" 下载完成");
    assert_eq!(download_failed("HTTP状态错误: 404"), "视频下载失败: HTTP状态错误: 404");
}

#[test]
fn hls_urls_end_with_m3u8() {
    assert!(is_hls_url("https://x/a/index.m3u8"));
    assert!(!is_hls_url("https://x/a/index.m3u8?token=1"));
    assert!(!is_hls_url("https://x/a/video.mp4"));
    assert!(!is_hls_url("m3u8"));
}

#[test]
fn chapter_folders_in_order() {
    let d = chapter_dirs("cu", "hu");
    assert_eq!(d, vec![
        vec!["downloads".to_string(), "cartoons".to_string(), "cu".to_string(), "hu".to_string()],
        vec!["downloads".to_string(), "anime".to_string(), "cu".to_string(), "hu".to_string()],
    ]);
    assert_eq!(cartoon_dir("cu"), vec!["downloads".to_string(), "cartoons".to_string(), "cu".to_string()]);
    assert_eq!(download_roots(), vec![
        vec!["downloads".to_string(), "cartoons".to_string()],
        vec!["downloads".to_string(), "anime".to_string()],
    ]);
}

#[test]
fn cover_names_follow_the_image() {
    assert_eq!(file_name_from_url("https://img.x/a/b/pic.png"), "pic.png");
    assert_eq!(file_name_from_url("pic.png"), "pic.png");
    assert_eq!(file_name_from_url("https://img.x/a/"), "");
    assert_eq!(cover_file_name("https://img.x/a/pic.webp"), "cover.webp");
    assert_eq!(cover_file_name("https://img.x/a/pic.tar.gz"), "cover.gz");
    assert_eq!(cover_file_name("https://img.x/a/pic"), "cover.jpg");
    assert_eq!(cover_file_name("https://img.x.y/a/pic"), "cover.jpg");
}

#[test]
fn download_time_has_the_pattern_shape() {
    let t = cartoon_download::clock::download_time_now().unwrap();
    let n = t.len();
    assert!(n >= 19);
    let rest: Vec<char> = t[n - 15..].chars().collect();
    for (i, c) in rest.iter().enumerate() {
        match i {
            0 | 3 => assert_eq!(*c, '-'),
            6 => assert_eq!(*c, ' '),
            9 | 12 => assert_eq!(*c, ':'),
            _ => assert!(c.is_ascii_digit()),
        }
    }
    let month: u32 = t[n - 14..n - 12].parse().unwrap();
    assert!((1..=12).contains(&month));
    assert!(t[..n - 15].chars().all(|c| c.is_ascii_digit()));
}

#[test]
fn chapter_download_starts_by_whether_the_video_is_there() {
    let mut reg = ProgressRegistry::new();
    match start_chapter_download(&mut reg, &info(), true).unwrap() {
        ChapterStart::AlreadyThere { record } => {
            assert!(record.is_completed);
            assert_eq!(record.file_size, 0);
            assert_eq!(record.video_file, "第1话.mp4");
        }
        ChapterStart::Download { .. } => panic!("the video is there"),
    }
    assert!(tracked_progress(&reg, "cu", "hu").is_none());
    match start_chapter_download(&mut reg, &info(), false).unwrap() {
        ChapterStart::Download { record } => {
            assert!(!record.is_completed);
            assert_eq!(record.file_size, 0);
        }
        ChapterStart::AlreadyThere { .. } => panic!("the video is missing"),
    }
    assert!(tracked_progress(&reg, "cu", "hu").is_some());
}

#[test]
fn download_time_follows_the_clock_reading() {
    assert_eq!(download_time_at(Some((0, 0))), Ok("1970-01-01 00:00:00".to_string()));
    assert_eq!(download_time_at(Some((1431648000, 5))), Ok("2015-05-15 00:00:00".to_string()));
    assert_eq!(download_time_at(None), Err("系统时间早于1970年".to_string()));
    assert_eq!(download_time_at(Some((u64::MAX, 0))), Err("时间超出范围".to_string()));
    assert_eq!(download_time_at(Some((1u64 << 62, 0))), Err("时间超出范围".to_string()));
    let far = download_time_at(Some((300_000_000_000, 0))).unwrap();
    assert!(far.starts_with('+'));
}
