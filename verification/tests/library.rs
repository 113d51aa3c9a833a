use cartoon_download::library::{get_local_cartoon_detail, listed_cartoon_uuid};
use cartoon_download::library::{build_downloaded_cartoon_list, local_chapter_values, CartoonFolder};
use cartoon_download::library::{local_entry_for, loose_record_completed, loose_record_time};
use cartoon_download::chapter::CartoonChapterInfo;
use cartoon_download::library::{
    chapter_deleted, check_incomplete_cartoon_download, count_downloaded_cartoon_chapters,
    cover_file_names, delete_downloaded_cartoon_chapter, downloaded_cartoon_order,
    find_cartoon_cover_file, get_latest_cartoon_download_time, get_local_cartoon_chapters,
    local_chapter_entry, loose_video_file, open_directory_refusal, should_list_cartoon,
    ChapterDirProbe, ChapterFolder, LocalChapterEntry,
};
use cartoon_download::order::{key_order, text_less};
use cartoon_download::progress::Percent;

fn record(done: bool, time: &str) -> CartoonChapterInfo {
    CartoonChapterInfo {
        cartoon_uuid: "c".to_string(),
        cartoon_name: "n".to_string(),
        chapter_uuid: "h".to_string(),
        chapter_name: "x".to_string(),
        video_file: "x.mp4".to_string(),
        file_size: 1,
        download_time: time.to_string(),
        is_completed: done,
    }
}

fn folder(name: &str, info: Option<&str>, rec: Option<CartoonChapterInfo>, ready: bool) -> ChapterFolder {
    ChapterFolder { name: name.to_string(), info: info.map(|s| s.to_string()), record: rec, video_ready: ready }
}

#[test]
fn completed_chapters_are_counted() {
    let folders = vec![
        folder("a", Some("{}"), Some(record(true, "2024-01-01 00:00:00")), false),
        folder("b", Some("{}"), Some(record(false, "2024-01-02 00:00:00")), false),
        folder("c", Some(r#"{"is_completed": true}"#), None, false),
        folder("d", Some(r#"{"is_completed": false, "video_file": "d.mp4"}"#), None, true),
        folder("e", Some(r#"{"video_file": "e.mp4"}"#), None, true),
        folder("f", Some(r#"{"video_file": "f.mp4"}"#), None, false),
        folder("g", Some("not json"), None, true),
        folder("h", None, None, true),
        folder("cartoon_detail.json", Some("{}"), Some(record(true, "2030-01-01 00:00:00")), false),
        folder("i", Some(r#"{"is_completed": "yes", "video_file": "i.mp4"}"#), None, true),
    ];
    // a, c, e, i
    assert_eq!(count_downloaded_cartoon_chapters(&folders), 4);
}

#[test]
fn latest_time_is_the_newest_completed_one() {
    let folders = vec![
        folder("a", Some("{}"), Some(record(true, "2024-01-01 00:00:00")), false),
        folder("b", Some("{}"), Some(record(false, "2025-01-01 00:00:00")), false),
        folder("c", Some(r#"{"is_completed": true, "download_time": "2024-03-01 00:00:00"}"#), None, false),
        folder("d", Some(r#"{"video_file": "d.mp4", "download_time": "2024-06-01 00:00:00"}"#), None, false),
        folder("e", Some(r#"{"video_file": "e.mp4", "download_time": "2024-02-01 00:00:00"}"#), None, true),
    ];
    assert_eq!(get_latest_cartoon_download_time(&folders), "2024-03-01 00:00:00");
    // The folder named cartoon_detail.json takes part here.
    let mut more = folders.clone();
    more.push(folder("cartoon_detail.json", Some("{}"), Some(record(true, "2030-01-01 00:00:00")), false));
    assert_eq!(get_latest_cartoon_download_time(&more), "2030-01-01 00:00:00");
    assert_eq!(get_latest_cartoon_download_time(&vec![]), "");
}

#[test]
fn loose_records_name_their_video_only_without_is_completed() {
    assert_eq!(loose_video_file(r#"{"video_file": "v.mp4"}"#), Some("v.mp4".to_string()));
    assert_eq!(loose_video_file(r#"{"video_file": "v.mp4", "is_completed": false}"#), None);
    assert_eq!(loose_video_file(r#"{"video_file": 3}"#), None);
    assert_eq!(loose_video_file("oops"), None);
}

#[test]
fn local_chapters_are_listed_and_sorted_by_name() {
    let folders = vec![
        folder("z", Some(r#"{"chapter_name": "第2话", "is_completed": true}"#), None, false),
        folder("cartoon_detail.json", Some(r#"{"chapter_name": "A"}"#), None, false),
        folder("y", Some(r#"{"chapter_name": "第1话", "video_file": "y.mp4"}"#), None, true),
        folder("x", Some("broken"), None, false),
        folder("w", Some(r#"{"video_file": "w.mp4"}"#), None, false),
        folder("v", Some(r#"{"chapter_name": "第1话"}"#), None, false),
        folder("", Some(r#"{"chapter_name": "0"}"#), None, false),
        folder("u", None, None, false),
    ];
    let listed = get_local_cartoon_chapters(&folders);
    let got: Vec<(usize, String)> = listed
        .iter()
        .map(|c| (c.folder, format!("{:?}", c.entry)))
        .collect();
    assert_eq!(
        got,
        vec![
            (4, "KeepMarked(false)".to_string()),
            (2, "KeepMarked(true)".to_string()),
            (5, "Keep".to_string()),
            (0, "Keep".to_string()),
        ]
    );
    assert!(matches!(local_chapter_entry(&folders[3]), LocalChapterEntry::Skip));
}

#[test]
fn incomplete_download_is_found_in_a_folder_without_record() {
    let r = check_incomplete_cartoon_download(&vec![ChapterDirProbe::Missing, ChapterDirProbe::WithoutInfo { entries: 3 }]).unwrap();
    assert!(r.has_incomplete);
    assert_eq!(r.downloaded, Some(0));
    assert_eq!(r.total, None);
    assert!(matches!(r.percent, Some(Percent::Whole(0))));
    let n = check_incomplete_cartoon_download(&vec![ChapterDirProbe::WithInfo, ChapterDirProbe::WithoutInfo { entries: 0 }]).unwrap();
    assert!(!n.has_incomplete);
    assert_eq!((n.downloaded, n.total), (None, None));
    assert!(n.percent.is_none());
    assert_eq!(check_incomplete_cartoon_download(&vec![ChapterDirProbe::Missing, ChapterDirProbe::Unreadable]).err(), Some(1));
    assert!(check_incomplete_cartoon_download(&vec![ChapterDirProbe::WithoutInfo { entries: 1 }, ChapterDirProbe::Unreadable]).is_ok());
}

#[test]
fn delete_takes_the_first_existing_folder() {
    assert_eq!(delete_downloaded_cartoon_chapter(&vec![false, true]), Ok(1));
    assert_eq!(delete_downloaded_cartoon_chapter(&vec![true, true]), Ok(0));
    assert_eq!(delete_downloaded_cartoon_chapter(&vec![false, false]), Err("章节不存在".to_string()));
    let d = chapter_deleted();
    assert!(d.success);
    assert_eq!(d.message, "章节删除成功");
}

#[test]
fn cover_is_the_first_existing_candidate() {
    assert_eq!(cover_file_names(), vec!["cover.jpg", "cover.jpeg", "cover.png", "cover.webp"]);
    assert_eq!(find_cartoon_cover_file(&vec![false, false, true, true]), Some(2));
    assert_eq!(find_cartoon_cover_file(&vec![false, false, false, false]), None);
}

#[test]
fn cartoons_are_listed_once() {
    let listed = vec!["a".to_string(), "b".to_string()];
    assert!(!should_list_cartoon(&listed, "a"));
    assert!(should_list_cartoon(&listed, "c"));
    assert!(!should_list_cartoon(&listed, ""));
}

#[test]
fn cartoons_are_listed_newest_first_and_stably() {
    let times = vec![
        "2024-01-01 00:00:00".to_string(),
        "2024-03-01 00:00:00".to_string(),
        "".to_string(),
        "2024-03-01 00:00:00".to_string(),
    ];
    assert_eq!(downloaded_cartoon_order(&times), vec![1, 3, 0, 2]);
}

#[test]
fn text_order_is_by_character_code() {
    assert!(text_less("", "a"));
    assert!(text_less("ab", "b"));
    assert!(text_less("a", "ab"));
    assert!(!text_less("b", "ab"));
    assert!(!text_less("same", "same"));
    assert!(text_less("Z", "a"));
    assert!(text_less("第1话", "第2话"));
    let keys = vec!["b".to_string(), "a".to_string(), "b".to_string()];
    assert_eq!(key_order(&keys, false), vec![1, 0, 2]);
    assert_eq!(key_order(&keys, true), vec![0, 2, 1]);
}

#[test]
fn opening_a_folder_is_refused_here() {
    assert_eq!(open_directory_refusal(false), "本地章节不存在");
    assert_eq!(open_directory_refusal(true), "此功能仅支持Windows系统");
}

#[test]
fn older_records_decide_from_their_fields() {
    assert!(loose_record_completed(Some(true), false, false));
    assert!(!loose_record_completed(Some(false), true, true));
    assert!(loose_record_completed(None, true, true));
    assert!(!loose_record_completed(None, true, false));
    assert!(!loose_record_completed(None, false, true));
    let t = Some("2024-01-01 00:00:00".to_string());
    assert_eq!(loose_record_time(Some(true), false, false, t.clone()), t);
    assert_eq!(loose_record_time(Some(false), true, true, t.clone()), None);
    assert_eq!(loose_record_time(None, true, true, t.clone()), t);
    assert_eq!(loose_record_time(None, true, true, None), None);
    assert!(matches!(local_entry_for("cartoon_detail.json", true, None, true, true), LocalChapterEntry::Skip));
    assert!(matches!(local_entry_for("", true, None, true, true), LocalChapterEntry::Skip));
    assert!(matches!(local_entry_for("a", false, Some(true), true, true), LocalChapterEntry::Skip));
    assert!(matches!(local_entry_for("a", true, Some(false), true, true), LocalChapterEntry::Keep));
    assert!(matches!(local_entry_for("a", true, None, true, false), LocalChapterEntry::KeepMarked(false)));
    assert!(matches!(local_entry_for("a", true, None, false, true), LocalChapterEntry::Keep));
}

#[test]
fn local_detail_reads_the_detail_text() {
    assert_eq!(get_local_cartoon_detail(false, None, "").unwrap_err(), "动画详情文件不存在");
    assert_eq!(get_local_cartoon_detail(true, None, "denied").unwrap_err(), "读取动画详情失败: denied");
    let v = get_local_cartoon_detail(true, Some(r#"{"uuid": "u1", "name": "N"}"#), "").unwrap();
    assert_eq!(v["uuid"], "u1");
    let e = get_local_cartoon_detail(true, Some("{oops"), "").unwrap_err();
    assert!(e.starts_with("解析动画详情失败: "));
    assert!(e.len() > "解析动画详情失败: ".len());
}

#[test]
fn listed_cartoons_carry_the_uuid_of_their_details() {
    assert_eq!(listed_cartoon_uuid(r#"{"uuid": "u1"}"#, true), Some("u1".to_string()));
    assert_eq!(listed_cartoon_uuid(r#"{"uuid": "u1"}"#, false), None);
    assert_eq!(listed_cartoon_uuid(r#"{"uuid": 3}"#, true), None);
}

#[test]
fn local_detail_is_the_parsed_value() {
    let text = r#"{"uuid": "u1", "name": "N", "popular": 12, "theme": [{"name": "t"}]}"#;
    let v = get_local_cartoon_detail(true, Some(text), "").unwrap();
    let expected: serde_json::Value = serde_json::from_str(text).unwrap();
    assert_eq!(v, expected);
    assert_ne!(v, serde_json::Value::Null);
}

#[test]
fn local_chapter_values_mark_completion() {
    let folders = vec![
        folder("z", Some(r#"{"chapter_name": "第2话", "is_completed": true}"#), None, false),
        folder("y", Some(r#"{"chapter_name": "第1话", "video_file": "y.mp4"}"#), None, true),
        folder("x", Some("broken"), None, false),
        folder("w", Some(r#"{"video_file": "w.mp4", "n": 1}"#), None, false),
        folder("v", Some(r#"{"chapter_name": "第1话"}"#), None, false),
    ];
    let values = local_chapter_values(&folders);
    let expected: Vec<serde_json::Value> = vec![
        serde_json::from_str(r#"{"video_file": "w.mp4", "n": 1, "is_completed": false}"#).unwrap(),
        serde_json::from_str(r#"{"chapter_name": "第1话", "video_file": "y.mp4", "is_completed": true}"#).unwrap(),
        serde_json::from_str(r#"{"chapter_name": "第1话"}"#).unwrap(),
        serde_json::from_str(r#"{"chapter_name": "第2话", "is_completed": true}"#).unwrap(),
    ];
    assert_eq!(values, expected);
}

fn cartoon(name: &str, uuid: Option<&str>) -> CartoonFolder {
    CartoonFolder { name: name.to_string(), uuid: uuid.map(|s| s.to_string()) }
}

#[test]
fn downloaded_cartoons_are_listed_once_cartoons_first() {
    // cartoons/: a, b, "" ; anime/: a (again), c, d (no details)
    let folders = vec![
        cartoon("a", Some("a")),
        cartoon("b", Some("b")),
        cartoon("", Some("e")),
        cartoon("a", Some("a")),
        cartoon("c", Some("c")),
        cartoon("d", None),
    ];
    let times: Vec<String> = vec![
        "2024-01-01 00:00:00", "2024-03-01 00:00:00", "2030-01-01 00:00:00",
        "2031-01-01 00:00:00", "2024-03-01 00:00:00", "2032-01-01 00:00:00",
    ]
    .into_iter()
    .map(|s| s.to_string())
    .collect();
    assert_eq!(build_downloaded_cartoon_list(&folders, &times), vec![1, 4, 0]);
}

#[test]
fn a_folder_named_after_a_listed_id_is_passed_over() {
    // A folder is compared by its name with the ids listed so far: `x` is
    // passed over, and `q`, whose details carry the id `x` again, is listed.
    let folders = vec![cartoon("p", Some("x")), cartoon("x", Some("y")), cartoon("q", Some("x"))];
    let times: Vec<String> = vec!["1", "2", "3"].into_iter().map(|s| s.to_string()).collect();
    assert_eq!(build_downloaded_cartoon_list(&folders, &times), vec![2, 0]);
    assert_eq!(build_downloaded_cartoon_list(&Vec::new(), &Vec::new()), Vec::<usize>::new());
}
